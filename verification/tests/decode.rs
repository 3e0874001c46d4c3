//! Tests of boot-entry decoding: the UTF-16 description policy, the
//! device-path walk and its default-candidate classification, and the
//! variable-name id parsing.

use bootmenu::codec::char16_to_string;
use bootmenu::entry::{DecodeError, Entry};
use bootmenu::ident::{is_boot_variable_name, parse_hex_u16};

/// UTF-16LE encoding of a string, without a terminator.
fn utf16le(s: &str) -> Vec<u8> {
    let mut out: Vec<u8> = Vec::new();
    for u in s.encode_utf16() {
        out.push((u & 0xFF) as u8);
        out.push((u >> 8) as u8);
    }
    out
}

/// One device-path node with the given type, subtype and data.
fn node(ty: u8, sub: u8, data: &[u8]) -> Vec<u8> {
    let len = (data.len() + 4) as u16;
    let mut out = vec![ty, sub, (len & 0xFF) as u8, (len >> 8) as u8];
    out.extend_from_slice(data);
    out
}

/// A file-path media node carrying the given path text.
fn file_node(path: &str) -> Vec<u8> {
    let mut data = utf16le(path);
    data.push(0);
    data.push(0);
    node(4, 4, &data)
}

/// A whole boot-entry buffer: attributes, device-path length,
/// null-terminated UTF-16LE description, then the device-path region.
fn entry_buf(desc_units: &[u8], dp: &[u8]) -> Vec<u8> {
    let mut out = vec![0u8, 0, 0, 0];
    out.push((dp.len() & 0xFF) as u8);
    out.push((dp.len() >> 8) as u8);
    out.extend_from_slice(desc_units);
    out.push(0);
    out.push(0);
    out.extend_from_slice(dp);
    out
}

#[test]
fn description_plain_ascii() {
    let buf = entry_buf(&utf16le("Ubuntu"), &[]);
    let e = Entry::new("Boot0001", &buf).unwrap();
    assert_eq!(e.description, "Ubuntu");
    assert_eq!(e.path, Vec::<String>::new());
}

#[test]
fn description_non_ascii_unit_becomes_space() {
    // 'U', then U+00E9 (e with acute), then 'x': the non-ASCII unit
    // decodes to a single space.
    let desc = utf16le("U\u{e9}x");
    let buf = entry_buf(&desc, &[]);
    let e = Entry::new("Boot0001", &buf).unwrap();
    assert_eq!(e.description, "U x");
}

#[test]
fn description_surrogate_pair_becomes_one_space() {
    // U+1F600 is one surrogate pair (two code units) and decodes to a
    // single space.
    let desc = utf16le("a\u{1F600}b");
    let buf = entry_buf(&desc, &[]);
    let e = Entry::new("Boot0001", &buf).unwrap();
    assert_eq!(e.description, "a b");
}

#[test]
fn terminator_stops_decoding() {
    // "Hi", a zero unit, then "No": everything after the terminator is
    // left out of the description.
    let mut desc = utf16le("Hi");
    desc.push(0);
    desc.push(0);
    desc.extend_from_slice(&utf16le("No"));
    // The extra text sits before the terminator entry_buf adds; the
    // declared device-path region is empty, so the leftovers make the
    // region start short of the buffer end — decode fails only if the
    // declared region overruns, which it does not here.
    let buf = entry_buf(&desc, &[]);
    let e = Entry::new("Boot0001", &buf).unwrap();
    assert_eq!(e.description, "Hi");
}

#[test]
fn char16_consumed_counts_terminator() {
    // "A" then the terminator: two bytes for the unit, two for the
    // terminator pair.
    let mut raw = utf16le("A");
    raw.push(0);
    raw.push(0);
    raw.extend_from_slice(&[0x55, 0x55]);
    let (s, end) = char16_to_string(&raw);
    assert_eq!(s, "A");
    assert_eq!(end, 4);
}

#[test]
fn char16_consumed_when_input_runs_out() {
    // Two units and no terminator: the scan probes past the end and
    // reports two bytes more than the region holds.
    let raw = utf16le("AB");
    let (s, end) = char16_to_string(&raw);
    assert_eq!(s, "AB");
    assert_eq!(end, 6);
}

#[test]
fn decoding_is_idempotent() {
    let dp = file_node("\\EFI\\ubuntu\\grubx64.efi");
    let buf = entry_buf(&utf16le("Ubuntu"), &dp);
    let e1 = Entry::new("Boot0001", &buf).unwrap();
    let e2 = Entry::new("Boot0001", &buf).unwrap();
    assert_eq!(e1, e2);
}

#[test]
fn fallback_loader_is_not_default_candidate() {
    let dp = file_node("\\EFI\\BOOT\\BOOTX64.EFI");
    let buf = entry_buf(&utf16le("UEFI OS"), &dp);
    let e = Entry::new("Boot0000", &buf).unwrap();
    assert!(!e.display_default);
    assert_eq!(e.path, vec!["\\efi\\boot\\bootx64.efi".to_string()]);
}

#[test]
fn ia32_fallback_is_not_default_candidate() {
    let dp = file_node("\\EFI\\BOOT\\BOOTIA32.EFI");
    let buf = entry_buf(&utf16le("UEFI OS"), &dp);
    let e = Entry::new("Boot0005", &buf).unwrap();
    assert!(!e.display_default);
    assert_eq!(e.path, vec!["\\efi\\boot\\bootia32.efi".to_string()]);
}

#[test]
fn aa64_fallback_is_not_default_candidate() {
    let dp = file_node("\\EFI\\BOOT\\BOOTAA64.EFI");
    let buf = entry_buf(&utf16le("UEFI OS"), &dp);
    let e = Entry::new("Boot0006", &buf).unwrap();
    assert!(!e.display_default);
}

#[test]
fn real_loader_is_default_candidate() {
    let dp = file_node("\\EFI\\ubuntu\\grubx64.efi");
    let buf = entry_buf(&utf16le("Ubuntu"), &dp);
    let e = Entry::new("Boot0001", &buf).unwrap();
    assert!(e.display_default);
    assert_eq!(e.path, vec!["\\efi\\ubuntu\\grubx64.efi".to_string()]);
}

#[test]
fn last_file_path_node_wins() {
    // A real loader first, the fallback loader last: the last file-path
    // node decides, so the entry is no default candidate.
    let mut dp = file_node("\\EFI\\ubuntu\\grubx64.efi");
    dp.extend_from_slice(&file_node("\\EFI\\Boot\\bootx64.efi"));
    let buf = entry_buf(&utf16le("Mixed"), &dp);
    let e = Entry::new("Boot0002", &buf).unwrap();
    assert!(!e.display_default);
    assert_eq!(e.path.len(), 2);
}

#[test]
fn non_file_nodes_contribute_type_names() {
    // An ACPI node, a messaging node and an unknown tag: each yields a
    // textual type name and leaves the classification alone.
    let mut dp = node(2, 1, &[0; 8]);
    dp.extend_from_slice(&node(3, 11, &[0; 4]));
    dp.extend_from_slice(&node(6, 1, &[]));
    let buf = entry_buf(&utf16le("Odd"), &dp);
    let e = Entry::new("Boot0003", &buf).unwrap();
    assert_eq!(
        e.path,
        vec!["Acpi".to_string(), "Messaging".to_string(), "Unknown(0x06)".to_string()]
    );
    assert!(!e.display_default);
}

#[test]
fn end_node_stops_the_walk() {
    let mut dp = file_node("\\EFI\\ubuntu\\grubx64.efi");
    dp.extend_from_slice(&node(0x7F, 0xFF, &[]));
    dp.extend_from_slice(&file_node("\\EFI\\Boot\\bootx64.efi"));
    let buf = entry_buf(&utf16le("Stops"), &dp);
    let e = Entry::new("Boot0004", &buf).unwrap();
    // Only the node before the end-of-path marker is seen, so the
    // classification of the first file node stands.
    assert_eq!(e.path.len(), 1);
    assert!(e.display_default);
}

#[test]
fn hex_suffix_parses_to_id() {
    let buf = entry_buf(&utf16le("Any"), &[]);
    let e = Entry::new("Boot001A", &buf).unwrap();
    assert_eq!(e.id, 0x1A);
    assert_eq!(e.id_string, "001A");
}

#[test]
fn non_hex_suffix_defaults_to_zero() {
    let buf = entry_buf(&utf16le("Any"), &[]);
    let e = Entry::new("BootZZZZ", &buf).unwrap();
    assert_eq!(e.id, 0);
    assert_eq!(e.id_string, "ZZZZ");
}

#[test]
fn lowercase_hex_suffix_parses() {
    let buf = entry_buf(&utf16le("Any"), &[]);
    let e = Entry::new("Boot00ff", &buf).unwrap();
    assert_eq!(e.id, 0xFF);
    assert_eq!(e.id_string, "00ff");
}

#[test]
fn truncated_header_is_an_error() {
    assert_eq!(Entry::new("Boot0001", &[0, 0, 0, 0, 0]), Err(DecodeError::TruncatedHeader));
}

#[test]
fn oversized_device_path_is_an_error() {
    // The declared device-path region is longer than the bytes present.
    let mut buf = entry_buf(&utf16le("Bad"), &[]);
    buf[4] = 200;
    assert_eq!(Entry::new("Boot0001", &buf), Err(DecodeError::DevicePathOutOfRange));
}

#[test]
fn parse_hex_u16_exact_values() {
    assert_eq!(parse_hex_u16("001A"), Some(0x1A));
    assert_eq!(parse_hex_u16("ffff"), Some(0xFFFF));
    assert_eq!(parse_hex_u16("0"), Some(0));
    assert_eq!(parse_hex_u16(""), None);
    assert_eq!(parse_hex_u16("10000"), None);
    assert_eq!(parse_hex_u16("12G4"), None);
    // One leading plus sign is read the way u16::from_str_radix reads it.
    assert_eq!(parse_hex_u16("+1A"), Some(0x1A));
    assert_eq!(parse_hex_u16("+"), None);
    assert_eq!(parse_hex_u16("++12"), None);
}

#[test]
fn plus_sign_suffix_parses() {
    let buf = entry_buf(&utf16le("Any"), &[]);
    let e = Entry::new("Boot+123", &buf).unwrap();
    assert_eq!(e.id, 0x123);
    assert_eq!(e.id_string, "+123");
}

#[test]
fn boot_variable_name_shape() {
    assert!(is_boot_variable_name("Boot0001"));
    assert!(is_boot_variable_name("Boot00aF"));
    assert!(!is_boot_variable_name("Boot001"));
    assert!(!is_boot_variable_name("Boot00001"));
    assert!(!is_boot_variable_name("BootZZZZ"));
    assert!(!is_boot_variable_name("Timeout"));
    assert!(!is_boot_variable_name(""));
}

#[test]
fn display_line_joins_path_with_spaces() {
    let mut dp = node(2, 1, &[0; 8]);
    dp.extend_from_slice(&file_node("\\EFI\\ubuntu\\grubx64.efi"));
    let buf = entry_buf(&utf16le("Ubuntu"), &dp);
    let e = Entry::new("Boot0001", &buf).unwrap();
    assert_eq!(e.display_line(), "Ubuntu, at: 'Acpi \\efi\\ubuntu\\grubx64.efi'");
}

#[test]
fn display_line_with_empty_path() {
    let buf = entry_buf(&utf16le("Bare"), &[]);
    let e = Entry::new("Boot0001", &buf).unwrap();
    assert_eq!(e.display_line(), "Bare, at: ''");
}
