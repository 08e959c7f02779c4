//! The canonical JSON payload codecs: exact renderings and round trips.

use exam_recorder::meta::{encode_metadata_json, parse_metadata, Metadata};
use exam_recorder::records::{
    encode_events_json, encode_summary_json, parse_events, parse_summary, KeystrokeEvent,
    SessionSummary,
};
use exam_recorder::state::{encode_state_json, parse_state_json, State};

#[test]
fn state_rendering_is_exact() {
    let fresh = State::new();
    assert_eq!(
        encode_state_json(&fresh),
        b"{\"run_counter\":0,\"last_run_time\":null}".to_vec()
    );
    let mut run = State::new();
    run.increment_counter(1700000123);
    assert_eq!(
        encode_state_json(&run),
        b"{\"run_counter\":1,\"last_run_time\":1700000123}".to_vec()
    );
}

#[test]
fn state_round_trip() {
    let mut s = State::new();
    s.increment_counter(42);
    s.increment_counter(43);
    let enc = encode_state_json(&s);
    let back = parse_state_json(&enc).unwrap();
    assert_eq!(back.run_counter, 2);
    assert_eq!(back.last_run_time, Some(43));
}

#[test]
fn state_parser_is_canonical() {
    assert!(parse_state_json(b"{\"run_counter\":01,\"last_run_time\":null}").is_none());
    assert!(parse_state_json(b"{\"run_counter\": 1,\"last_run_time\":null}").is_none());
    assert!(parse_state_json(b"{\"run_counter\":1,\"last_run_time\":null} ").is_none());
    assert!(parse_state_json(b"{\"run_counter\":1}").is_none());
}

#[test]
fn summary_round_trip() {
    let s = SessionSummary {
        total_keystrokes: 12,
        enter_pressed: 2,
        backspace_used: 1,
        delete_used: 0,
        paste_events: 3,
        total_pasted_chars: 3,
        commands_executed: 1,
    };
    let enc = encode_summary_json(&s);
    assert_eq!(parse_summary(&enc), Some(s));
}

#[test]
fn metadata_round_trip_with_escapes() {
    let meta = Metadata::new(
        "stu\"dent\\x".to_string(),
        "host\u{1F600}name".to_string(),
        "ef".repeat(16),
        9,
        1700000000,
    );
    let enc = encode_metadata_json(&meta);
    let back = parse_metadata(&enc).unwrap();
    assert_eq!(back.username, "stu\"dent\\x");
    assert_eq!(back.hostname, "host\u{1F600}name");
    assert_eq!(back.machine_id, "ef".repeat(16));
    assert_eq!(back.run_counter, 9);
    assert_eq!(back.start_time, 1700000000);
    assert_eq!(back.end_time, None);
    assert_eq!(back.duration_seconds, None);
}

#[test]
fn metadata_finalize_saturates() {
    let mut meta = Metadata::new(
        "u".to_string(),
        "h".to_string(),
        "00".repeat(16),
        1,
        2000,
    );
    meta.finalize(2100);
    assert_eq!(meta.end_time, Some(2100));
    assert_eq!(meta.duration_seconds, Some(100));
    let mut back_in_time = Metadata::new(
        "u".to_string(),
        "h".to_string(),
        "00".repeat(16),
        1,
        2000,
    );
    back_in_time.finalize(1500);
    assert_eq!(back_in_time.duration_seconds, Some(0));
}

#[test]
fn events_round_trip() {
    let events = vec![
        KeystrokeEvent {
            timestamp: 1,
            key_code: 104,
            key_name: "h".to_string(),
            raw_bytes: vec![104],
            is_paste: false,
        },
        KeystrokeEvent {
            timestamp: 2,
            key_code: 10,
            key_name: "Enter".to_string(),
            raw_bytes: vec![10],
            is_paste: false,
        },
        KeystrokeEvent {
            timestamp: 3,
            key_code: 34,
            key_name: "\"".to_string(),
            raw_bytes: vec![34],
            is_paste: true,
        },
    ];
    let enc = encode_events_json(&events);
    let back = parse_events(&enc).unwrap();
    assert_eq!(back.len(), 3);
    assert_eq!(back[0].key_name, "h");
    assert_eq!(back[1].key_code, 10);
    assert_eq!(back[2].key_name, "\"");
    assert!(back[2].is_paste);
    assert_eq!(back[2].raw_bytes, vec![34]);
}

#[test]
fn empty_events_round_trip() {
    let enc = encode_events_json(&Vec::new());
    assert_eq!(enc, b"[]".to_vec());
    assert_eq!(parse_events(&enc).unwrap().len(), 0);
}

#[test]
fn event_rendering_is_exact() {
    let events = vec![KeystrokeEvent {
        timestamp: 5,
        key_code: 97,
        key_name: "a".to_string(),
        raw_bytes: vec![97],
        is_paste: false,
    }];
    let enc = encode_events_json(&events);
    assert_eq!(
        String::from_utf8(enc).unwrap(),
        "[{\"timestamp\":5,\"key_code\":97,\"key_name\":\"a\",\"raw_bytes\":[97],\"is_paste\":false}]"
    );
}
