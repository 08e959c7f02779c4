//! End-to-end recording sessions: classification, summaries, the packaged
//! artifact, and reading it back.

use exam_recorder::analyzer::{extract_commands, Analyzer};
use exam_recorder::artifact::Decryptor;
use exam_recorder::meta::Metadata;
use exam_recorder::recorder::Recorder;
use exam_recorder::state::State;

const PASSWORD: &str = "instructor_password_change_me";

fn fresh_recorder(run_counter: u64) -> Recorder {
    let mut state = State::new();
    for _ in 0..run_counter {
        state.increment_counter(1111);
    }
    let meta = Metadata::new(
        "student".to_string(),
        "examhost".to_string(),
        "ab".repeat(16),
        run_counter,
        1700000000,
    );
    Recorder::new(state, meta)
}

#[test]
fn empty_session() {
    let mut rec = fresh_recorder(1);
    rec.process_input(b"exit", 500);
    assert!(rec.should_exit());
    rec.process_input(b"\n", 501);
    let summary = rec.generate_summary();
    assert_eq!(summary.total_keystrokes, 5);
    assert_eq!(summary.enter_pressed, 1);
    assert_eq!(summary.backspace_used, 0);
    assert_eq!(summary.paste_events, 0);
    assert_eq!(summary.commands_executed, 0);
}

#[test]
fn single_command() {
    let mut rec = fresh_recorder(1);
    rec.process_input(b"ls -la\n", 100);
    assert!(!rec.should_exit());
    rec.process_input(b"exit\n", 200);
    let summary = rec.generate_summary();
    assert_eq!(summary.total_keystrokes, 12);
    assert_eq!(summary.enter_pressed, 2);
    assert_eq!(summary.commands_executed, 1);

    let (filename, bytes) = rec.finalize(1700000100, PASSWORD).unwrap();
    assert_eq!(filename, "exam-result-student-1700000000.zip");
    let data = Decryptor::new(bytes).decrypt(PASSWORD).unwrap();
    // the analyzer's reconstruction keeps every finished line, including the
    // closing exit; the recorder's own command list (counted above) omits it
    let commands = extract_commands(&data.events);
    assert_eq!(commands, vec!["ls -la".to_string(), "exit".to_string()]);
    assert_eq!(data.summary.total_keystrokes, 12);
    assert_eq!(data.metadata.username, "student");
    assert_eq!(data.metadata.end_time, Some(1700000100));
    assert_eq!(data.metadata.duration_seconds, Some(100));
    assert_eq!(data.state_copy.run_counter, 1);
}

#[test]
fn backspace_editing() {
    let mut rec = fresh_recorder(1);
    rec.process_input(b"helpo\x7fo\n", 100);
    rec.process_input(b"exit\n", 200);
    let summary = rec.generate_summary();
    assert_eq!(summary.backspace_used, 1);
    assert_eq!(summary.commands_executed, 1);

    let (_, bytes) = rec.finalize(1700000050, PASSWORD).unwrap();
    let data = Decryptor::new(bytes).decrypt(PASSWORD).unwrap();
    let commands = extract_commands(&data.events);
    assert_eq!(commands, vec!["helpo".to_string(), "exit".to_string()]);
}

#[test]
fn paste_burst_in_one_read() {
    let mut rec = fresh_recorder(1);
    let chunk = vec![b'x'; 100];
    rec.process_input(&chunk, 900);
    let summary = rec.generate_summary();
    assert_eq!(summary.total_keystrokes, 100);
    // the window clears on each detection, so a 100-character burst trips the
    // detector once per twenty characters, and each flagged event carries its
    // single raw byte
    assert_eq!(summary.paste_events, 5);
    assert_eq!(summary.total_pasted_chars, 5);
}

#[test]
fn artifact_round_trip_and_integrity() {
    let mut rec = fresh_recorder(3);
    rec.process_input(b"echo hi\n", 50);
    rec.process_input(b"exit\n", 60);
    let (_, bytes) = rec.finalize(1700000010, PASSWORD).unwrap();

    let reader = Decryptor::new(bytes);
    assert_eq!(reader.verify_integrity(PASSWORD), Ok(true));
    let data = reader.decrypt(PASSWORD).unwrap();
    assert_eq!(data.events.len(), 13);
    assert_eq!(data.events[0].key_name, "e");
    assert_eq!(data.events[0].key_code, b'e' as u32);
    assert_eq!(data.events[0].raw_bytes, vec![b'e']);
    assert!(!data.events[0].is_paste);
    assert_eq!(data.summary.enter_pressed, 2);
    assert_eq!(data.state_copy.run_counter, 3);
    assert_eq!(data.integrity_hash.len(), 64);
}

#[test]
fn terminal_output_preserved_byte_for_byte() {
    let mut rec = fresh_recorder(1);
    let shell_bytes: Vec<u8> = (0..=255u8).collect();
    rec.record_output(&shell_bytes);
    rec.record_output(b"prompt$ ");
    rec.process_input(b"exit\n", 10);
    let (_, bytes) = rec.finalize(20, PASSWORD).unwrap();
    let data = Decryptor::new(bytes).decrypt(PASSWORD).unwrap();
    let mut expected = shell_bytes;
    expected.extend_from_slice(b"prompt$ ");
    assert_eq!(data.terminal_output, expected);
}

#[test]
fn tampered_outer_envelope_fails_decrypt() {
    let mut rec = fresh_recorder(1);
    rec.process_input(b"exit\n", 10);
    let (_, mut bytes) = rec.finalize(20, PASSWORD).unwrap();
    // flip one bit in the ciphertext body, past the 12-byte nonce
    bytes[20] ^= 0x01;
    let reader = Decryptor::new(bytes);
    assert!(reader.decrypt(PASSWORD).is_err());
    assert!(reader.verify_integrity(PASSWORD).is_err());
}

#[test]
fn wrong_password_fails_decrypt() {
    let mut rec = fresh_recorder(1);
    rec.process_input(b"exit\n", 10);
    let (_, bytes) = rec.finalize(20, PASSWORD).unwrap();
    let reader = Decryptor::new(bytes);
    assert!(reader.decrypt("not_the_password").is_err());
}

#[test]
fn report_fields_follow_artifact() {
    let mut rec = fresh_recorder(4);
    rec.process_input(b"pwd\n", 10);
    rec.process_input(b"exit\n", 20);
    let (_, bytes) = rec.finalize(1700003725, PASSWORD).unwrap();
    let reader = Decryptor::new(bytes);
    let ok = reader.verify_integrity(PASSWORD).unwrap();
    let data = reader.decrypt(PASSWORD).unwrap();
    let report = Analyzer::new(data).analyze(ok);
    assert_eq!(report.username, "student");
    assert_eq!(report.hostname, "examhost");
    assert_eq!(report.recorder_runs_before, 3);
    assert_eq!(report.session_duration, "1h 02m 05s");
    assert_eq!(report.commands, vec!["pwd".to_string(), "exit".to_string()]);
    assert!(report.integrity_passed);
    assert_eq!(report.total_keystrokes, 9);
}
