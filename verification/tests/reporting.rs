//! Rendering helpers of the report: durations, clock times, and the machine
//! id derivation.

use exam_recorder::analyzer::{format_duration, format_timestamp};
use exam_recorder::meta::generate_machine_id;
use sha2::Digest;

#[test]
fn durations_render_like_the_report() {
    assert_eq!(format_duration(0), "0m 00s");
    assert_eq!(format_duration(65), "1m 05s");
    assert_eq!(format_duration(600), "10m 00s");
    assert_eq!(format_duration(3725), "1h 02m 05s");
    assert_eq!(format_duration(7322), "2h 02m 02s");
}

#[test]
fn timestamps_render_as_utc_time_of_day() {
    assert_eq!(format_timestamp(0), "00:00:00");
    assert_eq!(format_timestamp(45_296_000), "12:34:56");
    assert_eq!(format_timestamp(45_296_999), "12:34:56");
    assert_eq!(format_timestamp(86_399_000), "23:59:59");
    assert_eq!(format_timestamp(86_400_000), "00:00:00");
}

#[test]
fn machine_id_is_prefix_of_reference_digest() {
    let macs = vec!["aa:bb:cc:dd:ee:ff".to_string()];
    let id = generate_machine_id("examhost", &macs);
    let mut h = sha2::Sha256::new();
    h.update(b"examhost");
    h.update(b"aa:bb:cc:dd:ee:ff");
    let digest = h.finalize();
    let expected: String = digest[..16].iter().map(|b| format!("{:02x}", b)).collect();
    assert_eq!(id, expected);
    assert_eq!(id.len(), 32);
}

#[test]
fn machine_id_without_discovered_addresses() {
    let id = generate_machine_id("examhost", &Vec::new());
    let digest = sha2::Sha256::digest(b"examhost");
    let expected: String = digest[..16].iter().map(|b| format!("{:02x}", b)).collect();
    assert_eq!(id, expected);
}
