//! The paste-burst detector's behaviour on slow typing, short bursts, and a
//! sustained same-millisecond burst.

use exam_recorder::detector::PasteDetector;

#[test]
fn nineteen_chars_in_one_ms_no_flag() {
    let mut d = PasteDetector::new();
    for _ in 0..19 {
        assert!(!d.check_paste(1000, 1));
    }
}

#[test]
fn fifty_chars_in_one_ms_flags_every_twentieth() {
    let mut d = PasteDetector::new();
    let mut flagged: Vec<usize> = Vec::new();
    for k in 1..=50usize {
        if d.check_paste(1000, 1) {
            flagged.push(k);
        }
    }
    // the window fills to twenty, trips, is cleared, and fills again
    assert_eq!(flagged, vec![20, 40]);
}

#[test]
fn slow_typing_never_flags() {
    // five characters per second: 200 ms between keystrokes
    let mut d = PasteDetector::new();
    let mut t: u64 = 5000;
    for _ in 0..500 {
        assert!(!d.check_paste(t, 1));
        t += 200;
    }
}

#[test]
fn burst_after_detection_window_restarts() {
    let mut d = PasteDetector::new();
    for k in 1..=20usize {
        let flagged = d.check_paste(7, 1);
        assert_eq!(flagged, k == 20);
    }
    // the window was cleared: the next nineteen do not flag
    for _ in 0..19 {
        assert!(!d.check_paste(7, 1));
    }
}

#[test]
fn spread_beyond_window_no_flag() {
    // twenty-five characters, but spread over more than 100 ms at a rate far
    // below ten thousand characters per second
    let mut d = PasteDetector::new();
    let mut t: u64 = 0;
    for _ in 0..25 {
        assert!(!d.check_paste(t, 1));
        t += 90;
    }
}
