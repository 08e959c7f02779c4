//! Counter persistence: load-increment-save cycles, a fresh file, and
//! tampering with the stored envelope.

use exam_recorder::crypto::{encrypt_state, sha256};
use exam_recorder::state::{decode_state, encode_state, encode_state_json, State, StateError};

const HOST: &str = "examhost";
const USER: &str = "student";

#[test]
fn three_cycles_advance_by_three() {
    // first run: no stored file yet
    let mut state = State::new();
    assert_eq!(state.run_counter, 0);
    let mut stored: Vec<u8>;
    for n in 1..=3u64 {
        state.increment_counter(1000 + n);
        stored = encode_state(&state, HOST, USER).unwrap();
        state = decode_state(&stored, HOST, USER).unwrap();
        assert_eq!(state.run_counter, n);
        assert_eq!(state.last_run_time, Some(1000 + n));
    }
}

#[test]
fn deleted_state_restarts_at_one() {
    let mut state = State::new();
    state.increment_counter(7);
    let _ = encode_state(&state, HOST, USER).unwrap();
    // the stored file is gone: the next run starts from a fresh counter
    let mut fresh = State::new();
    fresh.increment_counter(8);
    assert_eq!(fresh.run_counter, 1);
}

#[test]
fn tampered_envelope_is_rejected() {
    let mut state = State::new();
    state.increment_counter(7);
    let mut stored = encode_state(&state, HOST, USER).unwrap();
    let last = stored.len() - 1;
    stored[last] ^= 0x80;
    match decode_state(&stored, HOST, USER) {
        Err(StateError::Crypto(_)) => {},
        other => panic!("tampering was not rejected: {:?}", other),
    }
}

#[test]
fn other_machine_cannot_decode() {
    let mut state = State::new();
    state.increment_counter(7);
    let stored = encode_state(&state, HOST, USER).unwrap();
    assert!(decode_state(&stored, "otherhost", USER).is_err());
    assert!(decode_state(&stored, HOST, "otheruser").is_err());
}

#[test]
fn short_state_envelope_is_rejected() {
    assert!(decode_state(&[0u8; 11], HOST, USER).is_err());
}

#[test]
fn checksum_mismatch_is_rejected() {
    let state = State::new();
    let mut plain = encode_state_json(&state);
    plain.extend_from_slice(&[0u8; 32]);
    let env = encrypt_state(&plain, HOST, USER).unwrap();
    match decode_state(&env, HOST, USER) {
        Err(StateError::ChecksumMismatch) => {}
        other => panic!("checksum mismatch accepted: {:?}", other),
    }
}

#[test]
fn non_canonical_text_is_rejected() {
    let body = b"{\"run_counter\": 1,\"last_run_time\":null}".to_vec();
    let mut plain = body.clone();
    plain.extend_from_slice(&sha256(&body));
    let env = encrypt_state(&plain, HOST, USER).unwrap();
    match decode_state(&env, HOST, USER) {
        Err(StateError::ParseFailed) => {}
        other => panic!("non-canonical text accepted: {:?}", other),
    }
}

#[test]
fn plaintext_without_checksum_is_rejected() {
    let env = encrypt_state(b"abc", HOST, USER).unwrap();
    match decode_state(&env, HOST, USER) {
        Err(StateError::InvalidLength) => {}
        other => panic!("short plaintext accepted: {:?}", other),
    }
}
