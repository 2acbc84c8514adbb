//! Feed statistics tests.

use feed_handler::{FeedStats, LatencySummary};

#[test]
fn test_record_message() {
    let mut stats = FeedStats::new();
    stats.record_message(46);
    assert_eq!(stats.total_messages(), 1);
    assert_eq!(stats.total_bytes(), 46);
}

#[test]
fn test_decode_latency_stats() {
    let mut stats = FeedStats::new();
    for i in 1..=100 {
        stats.record_decode_latency(i);
    }

    let latency_stats = stats.decode_latency_summary().unwrap();
    assert_eq!(latency_stats.min_us, 1);
    assert_eq!(latency_stats.max_us, 100);
}

#[test]
fn test_gaps() {
    let mut stats = FeedStats::new();
    stats.record_gap(5);
    stats.record_gap(3);
    assert_eq!(stats.total_gaps(), 8);
    assert_eq!(stats.gap_events(), 2);
}

#[test]
fn test_summary_percentiles() {
    let mut stats = FeedStats::new();
    // Record out of order; the summary reads the sorted window.
    for v in [50u64, 10, 40, 20, 30] {
        stats.record_book_update_latency(v);
    }
    let st: LatencySummary = stats.book_update_latency_summary().unwrap();
    assert_eq!(st.min_us, 10);
    assert_eq!(st.max_us, 50);
    assert_eq!(st.p50_us, 30); // index 5 / 2 = 2 of [10, 20, 30, 40, 50]
    assert_eq!(st.p99_us, 50); // index (5 * 99) / 100 = 4
    assert_eq!(st.total_us, 150);
    assert_eq!(st.count, 5);
}

#[test]
fn test_empty_window_has_no_summary() {
    let stats = FeedStats::new();
    assert!(stats.decode_latency_summary().is_none());
    assert!(stats.book_update_latency_summary().is_none());
}

#[test]
fn test_window_eviction() {
    let mut stats = FeedStats::new();
    // Fill the window with large samples, plus one small early sample
    // that must be evicted by the overflow.
    stats.record_decode_latency(1);
    for _ in 0..feed_handler::stats::WINDOW_SIZE {
        stats.record_decode_latency(1000);
    }
    let st = stats.decode_latency_summary().unwrap();
    assert_eq!(st.count, feed_handler::stats::WINDOW_SIZE);
    assert_eq!(st.min_us, 1000);
}

#[test]
fn test_stats_reset() {
    let mut stats = FeedStats::new();
    stats.record_message(46);
    stats.record_decode_latency(5);
    stats.record_gap(2);
    assert!(stats.elapsed().is_some());

    stats.reset();
    assert_eq!(stats.total_messages(), 0);
    assert_eq!(stats.total_bytes(), 0);
    assert_eq!(stats.total_gaps(), 0);
    assert_eq!(stats.gap_events(), 0);
    assert!(stats.decode_latency_summary().is_none());
    assert!(stats.elapsed().is_none());
}
