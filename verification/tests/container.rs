//! The encrypted envelope and the archive container: round trips, the
//! integrity member, and tampering with individual members.

use exam_recorder::artifact::{create_password_protected_zip, Decryptor, ReadError};
use exam_recorder::crypto::{calculate_file_hash, decrypt_file, derive_state_key, encrypt_file};
use exam_recorder::meta::{encode_metadata_json, Metadata};
use exam_recorder::records::{encode_events_json, encode_summary_json, SessionSummary};
use exam_recorder::state::{encode_state_json, State};
use sha2::Digest;

const PASSWORD: &str = "class-secret";

#[test]
fn envelope_round_trip() {
    let data: Vec<u8> = (0..=255u8).cycle().take(1000).collect();
    let env = encrypt_file(&data, PASSWORD).unwrap();
    assert_eq!(env.len(), data.len() + 28);
    assert_eq!(decrypt_file(&env, PASSWORD).unwrap(), data);
}

#[test]
fn envelope_round_trip_empty() {
    let env = encrypt_file(&[], PASSWORD).unwrap();
    assert_eq!(env.len(), 28);
    assert_eq!(decrypt_file(&env, PASSWORD).unwrap(), Vec::<u8>::new());
}

#[test]
fn wrong_password_is_rejected() {
    let env = encrypt_file(b"secret data", PASSWORD).unwrap();
    assert!(decrypt_file(&env, "other-password").is_err());
}

#[test]
fn short_envelope_is_rejected() {
    assert!(decrypt_file(&[0u8; 11], PASSWORD).is_err());
    assert!(decrypt_file(&[0u8; 27], PASSWORD).is_err());
}

#[test]
fn file_hash_matches_reference_digest() {
    let data = b"the recorded bytes";
    let direct = sha2::Sha256::digest(data);
    let expected: String = direct.iter().map(|b| format!("{:02x}", b)).collect();
    assert_eq!(calculate_file_hash(data), expected);
}

#[test]
fn machine_key_matches_reference_digest() {
    let key = derive_state_key("examhost", "student");
    let mut h = sha2::Sha256::new();
    h.update(b"examhost");
    h.update(b"student");
    h.update(b"exam-recorder-state-key-v1");
    assert_eq!(key, h.finalize().to_vec());
}

fn make_members(hash_member: Vec<u8>) -> Vec<(String, Vec<u8>)> {
    let meta = Metadata::new(
        "student".to_string(),
        "examhost".to_string(),
        "cd".repeat(16),
        1,
        500,
    );
    let events = encrypt_file(&encode_events_json(&Vec::new()), PASSWORD).unwrap();
    let summary = encrypt_file(
        &encode_summary_json(&SessionSummary {
            total_keystrokes: 0,
            enter_pressed: 0,
            backspace_used: 0,
            delete_used: 0,
            paste_events: 0,
            total_pasted_chars: 0,
            commands_executed: 0,
        }),
        PASSWORD,
    )
    .unwrap();
    let metadata = encrypt_file(&encode_metadata_json(&meta), PASSWORD).unwrap();
    let terminal = encrypt_file(b"shell output", PASSWORD).unwrap();
    let state = encrypt_file(&encode_state_json(&State::new()), PASSWORD).unwrap();
    let hash = if hash_member.is_empty() {
        let mut all = Vec::new();
        all.extend_from_slice(&events);
        all.extend_from_slice(&summary);
        all.extend_from_slice(&metadata);
        all.extend_from_slice(&terminal);
        all.extend_from_slice(&state);
        calculate_file_hash(&all).into_bytes()
    } else {
        hash_member
    };
    vec![
        ("events.json.enc".to_string(), events),
        ("summary.json.enc".to_string(), summary),
        ("metadata.json.enc".to_string(), metadata),
        ("terminal_output.log.enc".to_string(), terminal),
        ("state_copy.json.enc".to_string(), state),
        ("integrity.sha256".to_string(), hash),
    ]
}

#[test]
fn packed_members_read_back_and_verify() {
    let files = make_members(Vec::new());
    let bytes = create_password_protected_zip(&files, PASSWORD).unwrap();
    let reader = Decryptor::new(bytes);
    assert_eq!(reader.verify_integrity(PASSWORD), Ok(true));
    let data = reader.decrypt(PASSWORD).unwrap();
    assert_eq!(data.events.len(), 0);
    assert_eq!(data.terminal_output, b"shell output".to_vec());
    assert_eq!(data.metadata.hostname, "examhost");
}

#[test]
fn flipped_hash_member_reads_but_fails_verify() {
    let mut files = make_members(Vec::new());
    // flip one bit inside the stored digest only
    files[5].1[0] ^= 0x01;
    let bytes = create_password_protected_zip(&files, PASSWORD).unwrap();
    let reader = Decryptor::new(bytes);
    // the members still decrypt and parse
    let data = reader.decrypt(PASSWORD).unwrap();
    assert_eq!(data.metadata.username, "student");
    // but the integrity comparison reports tampering
    assert_eq!(reader.verify_integrity(PASSWORD), Ok(false));
}

#[test]
fn flipped_inner_ciphertext_fails_member_decrypt() {
    let mut files = make_members(Vec::new());
    let n = files[0].1.len();
    files[0].1[n - 1] ^= 0x01;
    let bytes = create_password_protected_zip(&files, PASSWORD).unwrap();
    let reader = Decryptor::new(bytes);
    assert!(reader.decrypt(PASSWORD).is_err());
    // and the digest no longer matches either
    assert_eq!(reader.verify_integrity(PASSWORD), Ok(false));
}

#[test]
fn missing_member_is_named() {
    let mut files = make_members(Vec::new());
    files.remove(1);
    let bytes = create_password_protected_zip(&files, PASSWORD).unwrap();
    let reader = Decryptor::new(bytes);
    match reader.decrypt(PASSWORD) {
        Err(ReadError::MissingMember(m)) => {
            assert_eq!(m.file_name(), "summary.json.enc");
        }
        other => panic!("missing member accepted: {:?}", other.map(|_| ())),
    }
}

#[test]
fn malformed_member_is_rejected() {
    let mut files = make_members(Vec::new());
    files[0].1 = encrypt_file(b"not canonical json", PASSWORD).unwrap();
    let bytes = create_password_protected_zip(&files, PASSWORD).unwrap();
    match Decryptor::new(bytes).decrypt(PASSWORD) {
        Err(ReadError::MalformedMember) => {}
        other => panic!("malformed member accepted: {:?}", other.map(|_| ())),
    }
}

#[test]
fn non_archive_body_is_rejected() {
    let bytes = encrypt_file(b"not a zip archive", PASSWORD).unwrap();
    match Decryptor::new(bytes).decrypt(PASSWORD) {
        Err(ReadError::Archive(_)) => {}
        other => panic!("non-archive accepted: {:?}", other.map(|_| ())),
    }
}
