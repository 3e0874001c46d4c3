//! The interactive menu's state machine.
//!
//! The menu has two views.  The default view lists only the entries
//! marked as default candidates, in decoding order, followed by one
//! sentinel row that opens the advanced view; the advanced view lists
//! every entry and has no sentinel.  Navigation events move a cursor
//! with no wraparound; confirming on the sentinel switches the view
//! (keeping the numeric cursor position), and confirming on an entry row
//! finishes the menu with that entry.  There is no way back from the
//! advanced view and no quit event: the menu ends only in a choice.
//!
//! The state machine is pure: the surrounding program feeds it one event
//! at a time (from whichever input source produced one first) and draws
//! the rows it exposes.

use crate::entry::{spec_display_line, Entry};
use vstd::prelude::*;

verus! {

/// A normalized navigation event, as merged from the keyboard and the
/// game controller.  `Confirm` carries the controller's button state:
/// only a pressed (`true`) confirm acts, a release is ignored.  `Other`
/// stands for any controller event the menu does not react to.
#[derive(Clone, Copy, Debug, PartialEq, Eq, Structural)]
pub enum InputEvent {
    MoveUp,
    MoveDown,
    Confirm(bool),
    Other,
}

/// A key read from the terminal, reduced to the shapes the menu cares
/// about.
#[derive(Clone, Copy, Debug, PartialEq, Eq, Structural)]
pub enum Key {
    Enter,
    Down,
    Up,
    Other,
}

/// The event a terminal key stands for: Enter confirms, the arrow keys
/// move, and every other key is dropped.
pub open spec fn spec_map_key(k: Key) -> Option<InputEvent> {
    match k {
        Key::Enter => Some(InputEvent::Confirm(true)),
        Key::Down => Some(InputEvent::MoveDown),
        Key::Up => Some(InputEvent::MoveUp),
        Key::Other => None,
    }
}

/// Maps one terminal key to the navigation event it stands for, if any.
pub fn map_key(k: Key) -> (r: Option<InputEvent>)
    ensures
        r == spec_map_key(k),
{
    match k {
        Key::Enter => Some(InputEvent::Confirm(true)),
        Key::Down => Some(InputEvent::MoveDown),
        Key::Up => Some(InputEvent::MoveUp),
        Key::Other => None,
    }
}

/// One row of the menu: a boot entry, named by its index into the entry
/// list, or the sentinel row that opens the advanced view.
#[derive(Clone, Copy, Debug, PartialEq, Eq, Structural)]
pub enum MenuChoice {
    Entry(usize),
    Menu,
}

/// Which view is active.
#[derive(Clone, Copy, Debug, PartialEq, Eq, Structural)]
pub enum MenuType {
    Default,
    Advanced,
}

/// The indices of the default-candidate entries, in order.
pub open spec fn spec_candidate_rows(entries: Seq<Entry>) -> Seq<usize>
    decreases entries.len(),
{
    if entries.len() == 0 {
        Seq::empty()
    } else {
        spec_candidate_rows(entries.drop_last()) + if entries.last().display_default {
            seq![(entries.len() - 1) as usize]
        } else {
            Seq::empty()
        }
    }
}

/// There are at most as many candidate rows as entries, and every
/// candidate row names a real entry.
pub proof fn lemma_candidate_rows(entries: Seq<Entry>)
    ensures
        spec_candidate_rows(entries).len() <= entries.len(),
        forall|j: int|
            0 <= j < spec_candidate_rows(entries).len() ==> (#[trigger] spec_candidate_rows(
                entries,
            )[j]) < entries.len(),
    decreases entries.len(),
{
    if entries.len() > 0 {
        lemma_candidate_rows(entries.drop_last());
    }
}

/// The tracked value the menu starts with: the first default-candidate
/// entry, or nothing when there is none.
pub open spec fn spec_initial_cur(entries: Seq<Entry>) -> Option<MenuChoice> {
    if spec_candidate_rows(entries).len() > 0 {
        Some(MenuChoice::Entry(spec_candidate_rows(entries)[0]))
    } else {
        None
    }
}

/// The menu's whole state: the read-only entry list, the cursor, the
/// active view, the tracked current row, and whether a choice was made.
pub struct MenuState {
    pub entries: Vec<Entry>,
    pub default_rows: Vec<usize>,
    pub view: MenuType,
    pub pos: usize,
    pub cur: Option<MenuChoice>,
    pub done: bool,
}

impl MenuState {
    /// The number of rows in the active view (the sentinel included in
    /// the default view).
    pub open spec fn active_len(self) -> int {
        match self.view {
            MenuType::Default => self.default_rows@.len() as int + 1,
            MenuType::Advanced => self.entries@.len() as int,
        }
    }

    /// The row shown at position `i` of the active view.
    pub open spec fn row_at(self, i: int) -> MenuChoice {
        match self.view {
            MenuType::Default => if i < self.default_rows@.len() {
                MenuChoice::Entry(self.default_rows@[i])
            } else {
                MenuChoice::Menu
            },
            MenuType::Advanced => MenuChoice::Entry(i as usize),
        }
    }

    /// Well-formedness: the candidate rows match the entries, the cursor
    /// stays within the bounds the transitions keep, the tracked row
    /// names a real entry, and a finished menu tracks an entry row.
    pub open spec fn wf(self) -> bool {
        &&& self.default_rows@ == spec_candidate_rows(self.entries@)
        &&& self.default_rows@.len() <= self.entries@.len()
        &&& (forall|j: int|
            0 <= j < self.default_rows@.len() ==> (#[trigger] self.default_rows@[j])
                < self.entries@.len())
        &&& self.entries@.len() < usize::MAX
        &&& (self.view == MenuType::Default ==> self.pos <= self.default_rows@.len())
        &&& (self.view == MenuType::Advanced ==> self.pos <= self.entries@.len())
        &&& (match self.cur {
            Some(MenuChoice::Entry(i)) => i < self.entries@.len(),
            _ => true,
        })
        &&& (self.done ==> (self.cur matches Some(MenuChoice::Entry(_))))
    }

    /// Builds the menu over `entries`: default view, cursor at the top,
    /// tracking the first default candidate when one exists.
    pub fn new(entries: Vec<Entry>) -> (s: MenuState)
        requires
            entries@.len() < usize::MAX,
        ensures
            s.wf(),
            s.entries == entries,
            s.default_rows@ == spec_candidate_rows(entries@),
            s.view == MenuType::Default,
            s.pos == 0,
            s.cur == spec_initial_cur(entries@),
            s.done == false,
    {
        let n: usize = entries.len();
        let mut default_rows: Vec<usize> = Vec::new();
        let mut i: usize = 0;
        proof {
            assert(entries@.take(0) =~= Seq::<Entry>::empty());
        }
        while i < n
            invariant
                n == entries@.len(),
                0 <= i <= n,
                default_rows@ == spec_candidate_rows(entries@.take(i as int)),
            decreases n - i,
        {
            proof {
                assert(entries@.take(i as int + 1).drop_last() =~= entries@.take(i as int));
                assert(entries@.take(i as int + 1).last() == entries@[i as int]);
            }
            if entries[i].display_default {
                default_rows.push(i);
                proof {
                    assert(default_rows@ =~= spec_candidate_rows(entries@.take(i as int + 1)));
                }
            }
            i = i + 1;
        }
        proof {
            assert(entries@.take(n as int) =~= entries@);
            lemma_candidate_rows(entries@);
        }
        let cur: Option<MenuChoice> = if default_rows.len() > 0 {
            Some(MenuChoice::Entry(default_rows[0]))
        } else {
            None
        };
        MenuState { entries, default_rows, view: MenuType::Default, pos: 0, cur, done: false }
    }

    /// The number of rows of the active view.
    pub fn active_rows(&self) -> (r: usize)
        requires
            self.wf(),
        ensures
            r == self.active_len(),
    {
        match self.view {
            MenuType::Default => self.default_rows.len() + 1,
            MenuType::Advanced => self.entries.len(),
        }
    }

    /// The row at position `i` of the active view.
    fn row_choice(&self, i: usize) -> (r: MenuChoice)
        requires
            self.wf(),
            i < self.active_len(),
        ensures
            r == self.row_at(i as int),
    {
        match self.view {
            MenuType::Default => if i < self.default_rows.len() {
                MenuChoice::Entry(self.default_rows[i])
            } else {
                MenuChoice::Menu
            },
            MenuType::Advanced => MenuChoice::Entry(i),
        }
    }

    /// Feeds one event to the menu; the new state is exactly
    /// [`spec_step`] of the old one.
    ///
    /// A pressed confirm with no tracked row (possible only when no
    /// entry decoded and the cursor never moved) is a guarded no-op, so
    /// the menu never finishes without an entry to hand out.
    pub fn step(&mut self, ev: InputEvent)
        requires
            old(self).wf(),
            !old(self).done,
        ensures
            *final(self) == spec_step(*old(self), ev),
            final(self).wf(),
    {
        match ev {
            InputEvent::MoveDown => {
                let rows: usize = self.active_rows();
                if self.pos + 1 < rows {
                    self.pos = self.pos + 1;
                    self.cur = Some(self.row_choice(self.pos));
                }
            },
            InputEvent::MoveUp => {
                let rows: usize = self.active_rows();
                if self.pos > 0 && self.pos - 1 < rows {
                    self.pos = self.pos - 1;
                    self.cur = Some(self.row_choice(self.pos));
                }
            },
            InputEvent::Confirm(v) => {
                if v {
                    match self.cur {
                        Some(MenuChoice::Menu) => {
                            self.view = MenuType::Advanced;
                        },
                        Some(MenuChoice::Entry(_)) => {
                            self.done = true;
                        },
                        None => {},
                    }
                }
            },
            InputEvent::Other => {},
        }
    }

    /// The chosen entry of a finished menu (and the entry the tracked
    /// row names meanwhile), or nothing while no row is tracked.
    pub fn selection(&self) -> (r: Option<&Entry>)
        requires
            self.wf(),
        ensures
            match self.cur {
                Some(MenuChoice::Entry(i)) => r matches Some(e) && *e == self.entries@[i as int],
                _ => r is None,
            },
    {
        match self.cur {
            Some(MenuChoice::Entry(i)) => Some(&self.entries[i]),
            _ => None,
        }
    }

    /// Whether a choice has been made.
    pub fn finished(&self) -> (r: bool)
        ensures
            r == self.done,
    {
        self.done
    }

    /// The text of row `i` of the active view: just the description in
    /// the default view (and the fixed label on the sentinel row), the
    /// full display line in the advanced view.
    pub open spec fn spec_row_text(self, i: int) -> Seq<char> {
        match self.view {
            MenuType::Default => if i < self.default_rows@.len() {
                self.entries@[self.default_rows@[i] as int]@.description
            } else {
                "Advanced Boot Menu"@
            },
            MenuType::Advanced => spec_display_line(self.entries@[i]@),
        }
    }

    /// The rows of the active view, top to bottom, ready to draw.
    pub fn render_rows(&self) -> (r: Vec<String>)
        requires
            self.wf(),
        ensures
            r@.len() == self.active_len(),
            forall|i: int| 0 <= i < r@.len() ==> (#[trigger] r@[i])@ == self.spec_row_text(i),
    {
        let rows: usize = self.active_rows();
        let mut out: Vec<String> = Vec::new();
        let mut i: usize = 0;
        while i < rows
            invariant
                self.wf(),
                rows == self.active_len(),
                0 <= i <= rows,
                out@.len() == i,
                forall|j: int| 0 <= j < i ==> (#[trigger] out@[j])@ == self.spec_row_text(j),
            decreases rows - i,
        {
            let line: String = match self.view {
                MenuType::Default => if i < self.default_rows.len() {
                    self.entries[self.default_rows[i]].description.clone()
                } else {
                    String::from_str("Advanced Boot Menu")
                },
                MenuType::Advanced => self.entries[i].display_line(),
            };
            out.push(line);
            i = i + 1;
        }
        out
    }
}

/// The menu's transition function.  Moves act on the active row list and
/// do nothing at its ends; a pressed confirm switches to the advanced
/// view when the sentinel is tracked and finishes the menu when an entry
/// is tracked; everything else is a no-op.
pub open spec fn spec_step(s: MenuState, ev: InputEvent) -> MenuState {
    match ev {
        InputEvent::MoveDown => {
            if s.pos + 1 < s.active_len() {
                MenuState { pos: (s.pos + 1) as usize, cur: Some(s.row_at(s.pos + 1)), ..s }
            } else {
                s
            }
        },
        InputEvent::MoveUp => {
            if s.pos > 0 && s.pos - 1 < s.active_len() {
                MenuState { pos: (s.pos - 1) as usize, cur: Some(s.row_at(s.pos - 1)), ..s }
            } else {
                s
            }
        },
        InputEvent::Confirm(v) => {
            if v {
                match s.cur {
                    Some(MenuChoice::Menu) => MenuState { view: MenuType::Advanced, ..s },
                    Some(MenuChoice::Entry(_)) => MenuState { done: true, ..s },
                    None => s,
                }
            } else {
                s
            }
        },
        InputEvent::Other => s,
    }
}

/// Confirming on the sentinel row switches the view to advanced without
/// finishing the menu, and changes nothing else.
pub proof fn lemma_confirm_on_sentinel(s: MenuState)
    requires
        s.wf(),
        s.cur == Some(MenuChoice::Menu),
    ensures
        spec_step(s, InputEvent::Confirm(true)).view == MenuType::Advanced,
        spec_step(s, InputEvent::Confirm(true)).done == s.done,
        spec_step(s, InputEvent::Confirm(true)).cur == s.cur,
        spec_step(s, InputEvent::Confirm(true)).pos == s.pos,
        spec_step(s, InputEvent::Confirm(true)).entries == s.entries,
{
}

/// Confirming while an entry row is tracked finishes the menu with
/// exactly that entry: the tracked row, the cursor and the view are
/// untouched.
pub proof fn lemma_confirm_on_entry(s: MenuState, i: usize)
    requires
        s.wf(),
        s.cur == Some(MenuChoice::Entry(i)),
    ensures
        spec_step(s, InputEvent::Confirm(true)).done,
        spec_step(s, InputEvent::Confirm(true)).cur == Some(MenuChoice::Entry(i)),
        spec_step(s, InputEvent::Confirm(true)).view == s.view,
        spec_step(s, InputEvent::Confirm(true)).pos == s.pos,
        spec_step(s, InputEvent::Confirm(true)).entries == s.entries,
        i < s.entries@.len(),
{
}

/// A "move down" on the last row of the active view is a no-op: the
/// whole state, the cursor included, stays as it was.
pub proof fn lemma_move_down_at_end(s: MenuState)
    requires
        s.wf(),
        s.pos + 1 >= s.active_len(),
    ensures
        spec_step(s, InputEvent::MoveDown) == s,
{
}

/// A "move up" on the top row is a no-op.
pub proof fn lemma_move_up_at_top(s: MenuState)
    requires
        s.wf(),
        s.pos == 0,
    ensures
        spec_step(s, InputEvent::MoveUp) == s,
{
}

} // verus!
