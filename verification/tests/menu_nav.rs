//! Tests of the menu state machine: cursor movement, view switching,
//! and final selection.

use bootmenu::entry::Entry;
use bootmenu::menu::{map_key, InputEvent, Key, MenuChoice, MenuState, MenuType};

/// A hand-made entry; only the fields the menu reads matter here.
fn entry(id: u16, desc: &str, candidate: bool) -> Entry {
    Entry {
        id,
        id_string: format!("{:04X}", id),
        description: desc.to_string(),
        path: vec![format!("\\efi\\{}\\loader.efi", desc)],
        display_default: candidate,
    }
}

#[test]
fn initial_state_tracks_first_candidate() {
    let m = MenuState::new(vec![entry(1, "a", false), entry(2, "b", true), entry(3, "c", true)]);
    assert_eq!(m.view, MenuType::Default);
    assert_eq!(m.pos, 0);
    assert!(!m.done);
    // The first candidate is the entry at index 1.
    assert_eq!(m.cur, Some(MenuChoice::Entry(1)));
}

#[test]
fn two_downs_one_up_lands_on_row_one() {
    // Default view with three rows: two candidates and the sentinel.
    let mut m = MenuState::new(vec![entry(1, "a", true), entry(2, "b", true)]);
    m.step(InputEvent::MoveDown);
    m.step(InputEvent::MoveDown);
    m.step(InputEvent::MoveUp);
    assert_eq!(m.pos, 1);
    assert_eq!(m.cur, Some(MenuChoice::Entry(1)));
}

#[test]
fn down_at_last_row_is_a_noop() {
    let mut m = MenuState::new(vec![entry(1, "a", true), entry(2, "b", true)]);
    m.step(InputEvent::MoveDown);
    m.step(InputEvent::MoveDown);
    // The cursor sits on the sentinel, the last of the three rows.
    assert_eq!(m.pos, 2);
    m.step(InputEvent::MoveDown);
    assert_eq!(m.pos, 2);
    assert_eq!(m.cur, Some(MenuChoice::Menu));
}

#[test]
fn up_at_top_is_a_noop() {
    let mut m = MenuState::new(vec![entry(1, "a", true)]);
    m.step(InputEvent::MoveUp);
    assert_eq!(m.pos, 0);
    assert_eq!(m.cur, Some(MenuChoice::Entry(0)));
}

#[test]
fn confirm_on_sentinel_opens_advanced_view() {
    let mut m = MenuState::new(vec![entry(1, "a", true), entry(2, "b", false)]);
    m.step(InputEvent::MoveDown);
    assert_eq!(m.cur, Some(MenuChoice::Menu));
    m.step(InputEvent::Confirm(true));
    assert_eq!(m.view, MenuType::Advanced);
    assert!(!m.done);
    // The cursor position is reused against the longer list.
    assert_eq!(m.pos, 1);
}

#[test]
fn confirm_on_entry_finishes_with_that_entry() {
    let entries = vec![entry(1, "a", true), entry(2, "b", true)];
    let mut m = MenuState::new(entries);
    m.step(InputEvent::MoveDown);
    assert_eq!(m.cur, Some(MenuChoice::Entry(1)));
    m.step(InputEvent::Confirm(true));
    assert!(m.finished());
    let chosen = m.selection().unwrap();
    assert_eq!(chosen.id, 2);
    assert_eq!(chosen.description, "b");
}

#[test]
fn confirm_release_is_ignored() {
    let mut m = MenuState::new(vec![entry(1, "a", true)]);
    m.step(InputEvent::Confirm(false));
    assert!(!m.done);
    m.step(InputEvent::Other);
    assert!(!m.done);
}

#[test]
fn no_candidates_menu_degrades_to_sentinel_only() {
    let mut m = MenuState::new(vec![entry(1, "a", false), entry(2, "b", false)]);
    // Only the sentinel row exists in the default view; nothing is
    // tracked, so confirming is a guarded no-op.
    assert_eq!(m.cur, None);
    m.step(InputEvent::Confirm(true));
    assert!(!m.done);
    // Moving cannot leave the single row.
    m.step(InputEvent::MoveDown);
    assert_eq!(m.pos, 0);
}

#[test]
fn advanced_view_lists_all_entries() {
    let mut m = MenuState::new(vec![entry(1, "a", false), entry(2, "b", true)]);
    // Default view: one candidate plus the sentinel.
    let rows = m.render_rows();
    assert_eq!(rows, vec!["b".to_string(), "Advanced Boot Menu".to_string()]);
    m.step(InputEvent::MoveDown);
    m.step(InputEvent::Confirm(true));
    let rows = m.render_rows();
    assert_eq!(
        rows,
        vec![
            "a, at: '\\efi\\a\\loader.efi'".to_string(),
            "b, at: '\\efi\\b\\loader.efi'".to_string(),
        ]
    );
}

#[test]
fn cursor_position_survives_view_switch() {
    // Both entries are candidates: sentinel sits at row 2.  After the
    // switch the same numeric position names entry 0 in the advanced
    // list only after a move re-tracks it.
    let mut m = MenuState::new(vec![entry(1, "a", true), entry(2, "b", true)]);
    m.step(InputEvent::MoveDown);
    m.step(InputEvent::MoveDown);
    m.step(InputEvent::Confirm(true));
    assert_eq!(m.view, MenuType::Advanced);
    assert_eq!(m.pos, 2);
    // The tracked value is still the sentinel until a move lands on a
    // real row.
    assert_eq!(m.cur, Some(MenuChoice::Menu));
    m.step(InputEvent::MoveUp);
    assert_eq!(m.pos, 1);
    assert_eq!(m.cur, Some(MenuChoice::Entry(1)));
}

#[test]
fn key_mapping() {
    assert_eq!(map_key(Key::Enter), Some(InputEvent::Confirm(true)));
    assert_eq!(map_key(Key::Down), Some(InputEvent::MoveDown));
    assert_eq!(map_key(Key::Up), Some(InputEvent::MoveUp));
    assert_eq!(map_key(Key::Other), None);
}
