//! Gap detector tests.

use feed_handler::GapDetector;

#[test]
fn test_no_gaps() {
    let mut detector = GapDetector::new();
    for i in 0..100 {
        detector.process(i);
    }
    assert_eq!(detector.total_gaps(), 0);
    assert!(detector.gaps().is_empty());
}

#[test]
fn test_single_gap() {
    let mut detector = GapDetector::new();
    detector.process(1);
    detector.process(2);
    detector.process(5); // gap: 3, 4
    detector.process(6);

    assert_eq!(detector.total_gaps(), 2);
    assert_eq!(detector.gap_count(), 1);
    assert_eq!(detector.gaps()[0], (3, 4));
}

#[test]
fn test_multiple_gaps() {
    let mut detector = GapDetector::new();
    detector.process(1);
    detector.process(5); // gap: 2-4 (3 messages)
    detector.process(10); // gap: 6-9 (4 messages)
    detector.process(11);

    assert_eq!(detector.total_gaps(), 7);
    assert_eq!(detector.gap_count(), 2);
    assert_eq!(detector.gaps()[0], (2, 4));
    assert_eq!(detector.gaps()[1], (6, 9));
}

#[test]
fn test_is_in_gap() {
    let mut detector = GapDetector::new();
    detector.process(1);
    detector.process(5);
    detector.process(10);

    assert!(detector.is_in_gap(2));
    assert!(detector.is_in_gap(3));
    assert!(detector.is_in_gap(4));
    assert!(!detector.is_in_gap(1));
    assert!(!detector.is_in_gap(5));
    assert!(detector.is_in_gap(6));
    assert!(detector.is_in_gap(9));
    assert!(!detector.is_in_gap(10));
}

#[test]
fn test_reset() {
    let mut detector = GapDetector::new();
    detector.process(1);
    detector.process(5);
    assert_eq!(detector.total_gaps(), 3);

    detector.reset();
    assert_eq!(detector.total_gaps(), 0);
    assert!(detector.gaps().is_empty());
}

#[test]
fn test_total_matches_interval_widths() {
    let mut detector = GapDetector::new();
    for &s in &[1u32, 5, 10, 100, 101, 250] {
        detector.process(s);
    }
    let width_sum: u32 = detector.gaps().iter().map(|&(a, b)| b - a + 1).sum();
    assert_eq!(width_sum, detector.total_gaps());
    for &(a, b) in detector.gaps() {
        assert!(detector.is_in_gap(a));
        assert!(detector.is_in_gap(b));
    }
    assert!(!detector.is_in_gap(1));
    assert!(!detector.is_in_gap(250));
}

#[test]
fn test_sequence_wraparound() {
    let mut detector = GapDetector::new();
    detector.process(u32::MAX);
    detector.process(0); // consecutive across the wrap: no gap
    assert_eq!(detector.total_gaps(), 0);
    detector.process(2); // gap: 1
    assert_eq!(detector.total_gaps(), 1);
    assert_eq!(detector.gaps()[0], (1, 1));
}
