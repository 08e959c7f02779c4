//! The byte-to-key-name table, over every byte value.

use exam_recorder::keys::decode_key_byte;
use exam_recorder::meta::Metadata;
use exam_recorder::recorder::Recorder;
use exam_recorder::state::State;

fn expected_name(b: u8) -> (String, bool) {
    match b {
        0 => ("NULL".to_string(), true),
        1 => ("Ctrl+A".to_string(), true),
        2 => ("Ctrl+B".to_string(), true),
        3 => ("Ctrl+C".to_string(), true),
        4 => ("Ctrl+D".to_string(), true),
        5 => ("Ctrl+E".to_string(), true),
        6 => ("Ctrl+F".to_string(), true),
        7 => ("Ctrl+G".to_string(), true),
        8 | 127 => ("Backspace".to_string(), true),
        9 => ("Tab".to_string(), true),
        10 | 13 => ("Enter".to_string(), true),
        27 => ("ESC".to_string(), true),
        32..=126 => (format!("{}", b as char), false),
        _ => (format!("0x{:02X}", b), true),
    }
}

#[test]
fn key_table_all_bytes() {
    for b in 0..=255u8 {
        let (name, special) = decode_key_byte(b);
        let (want_name, want_special) = expected_name(b);
        assert_eq!(name, want_name, "name for byte {}", b);
        assert_eq!(special, want_special, "specialness for byte {}", b);
    }
}

#[test]
fn key_table_through_recorder() {
    let meta = Metadata::new(
        "student".to_string(),
        "host".to_string(),
        "0".repeat(32),
        1,
        1000,
    );
    let rec = Recorder::new(State::new(), meta);
    assert_eq!(rec.decode_key(10).0, "Enter");
    assert_eq!(rec.decode_key(13).0, "Enter");
    assert_eq!(rec.decode_key(8).0, "Backspace");
    assert_eq!(rec.decode_key(127).0, "Backspace");
    assert_eq!(rec.decode_key(b'a').0, "a");
    assert!(!rec.decode_key(b'a').1);
    assert_eq!(rec.decode_key(0xAB).0, "0xAB");
    assert!(rec.decode_key(0xAB).1);
}
