//! Packet number windows.

use zetta_transport::ack_tracker::{AckTracker, MAX_ACK_RANGES};
use zetta_transport::replay_window::ReplayWindow;

#[test]
fn ack_tracker_ack_tracker_sequential() {
    let mut t = AckTracker::new();
    for pn in 0..10u64 {
        t.mark_processed(pn);
    }
    let ranges = t.get_ack_ranges();
    assert_eq!(ranges, vec![(0, 9)]);
}

#[test]
fn ack_tracker_ack_tracker_with_gap() {
    let mut t = AckTracker::new();
    for pn in [0u64, 1, 2, 5, 6, 7] {
        t.mark_processed(pn);
    }
    let ranges = t.get_ack_ranges();
    assert_eq!(ranges.len(), 2);
    assert!(ranges.contains(&(5, 7)));
    assert!(ranges.contains(&(0, 2)));
}

#[test]
fn ack_tracker_ack_tracker_out_of_order() {
    let mut t = AckTracker::new();
    t.mark_processed(10);
    t.mark_processed(5);
    t.mark_processed(8);
    let ranges = t.get_ack_ranges();
    assert!(ranges.contains(&(10, 10)));
    assert!(ranges.contains(&(8, 8)));
    assert!(ranges.contains(&(5, 5)));
}

#[test]
fn ack_tracker_ack_tracker_duplicate_ignored() {
    let mut t = AckTracker::new();
    t.mark_processed(5);
    t.mark_processed(5);
    let ranges = t.get_ack_ranges();
    assert_eq!(ranges, vec![(5, 5)]);
}

#[test]
fn ack_tracker_ack_tracker_window_overflow_resets() {
    let mut t = AckTracker::new();
    t.mark_processed(0);
    t.mark_processed(3000);
    let ranges = t.get_ack_ranges();
    assert_eq!(ranges, vec![(3000, 3000)]);
}

#[test]
fn window_ack_tracker_sequential() {
    let mut t = AckTracker::new();
    for pn in 0..10u64 {
        t.mark_processed(pn);
    }
    let ranges = t.get_ack_ranges();
    assert_eq!(ranges, vec![(0, 9)]);
}

#[test]
fn window_ack_tracker_with_gap() {
    let mut t = AckTracker::new();
    for pn in [0u64, 1, 2, 5, 6, 7] {
        t.mark_processed(pn);
    }
    let ranges = t.get_ack_ranges();
    assert_eq!(ranges.len(), 2);
    assert!(ranges.contains(&(5, 7)));
    assert!(ranges.contains(&(0, 2)));
}

#[test]
fn window_ack_tracker_out_of_order() {
    let mut t = AckTracker::new();
    t.mark_processed(10);
    t.mark_processed(5);
    t.mark_processed(8);
    let ranges = t.get_ack_ranges();
    assert!(ranges.contains(&(10, 10)));
    assert!(ranges.contains(&(8, 8)));
    assert!(ranges.contains(&(5, 5)));
}

#[test]
fn window_ack_tracker_duplicate_ignored() {
    let mut t = AckTracker::new();
    t.mark_processed(5);
    t.mark_processed(5);
    let ranges = t.get_ack_ranges();
    assert_eq!(ranges, vec![(5, 5)]);
}

#[test]
fn window_ack_tracker_window_overflow_resets() {
    let mut t = AckTracker::new();
    t.mark_processed(0);
    t.mark_processed(3000);
    let ranges = t.get_ack_ranges();
    assert_eq!(ranges, vec![(3000, 3000)]);
}

#[test]
fn replay_window_replay_window_no_replay_initially() {
    let w = ReplayWindow::new();
    assert!(!w.is_replay(0));
    assert!(!w.is_replay(100));
}

#[test]
fn replay_window_replay_window_detects_replay() {
    let mut w = ReplayWindow::new();
    w.mark_processed(5);
    assert!(w.is_replay(5));
}

#[test]
fn replay_window_replay_window_too_old_is_replay() {
    let mut w = ReplayWindow::new();
    w.mark_processed(3000);
    assert!(w.is_replay(0));
}

#[test]
fn replay_window_replay_window_future_is_not_replay() {
    let mut w = ReplayWindow::new();
    w.mark_processed(5);
    assert!(!w.is_replay(6));
}

#[test]
fn window_replay_window_no_replay_initially() {
    let w = ReplayWindow::new();
    assert!(!w.is_replay(0));
    assert!(!w.is_replay(100));
}

#[test]
fn window_replay_window_detects_replay() {
    let mut w = ReplayWindow::new();
    w.mark_processed(5);
    assert!(w.is_replay(5));
}

#[test]
fn window_replay_window_too_old_is_replay() {
    let mut w = ReplayWindow::new();
    w.mark_processed(3000);
    assert!(w.is_replay(0));
}

#[test]
fn window_replay_window_future_is_not_replay() {
    let mut w = ReplayWindow::new();
    w.mark_processed(5);
    assert!(!w.is_replay(6));
}

#[test]
fn ack_ranges_stop_at_the_limit() {
    let mut t = AckTracker::new();
    for pn in 0..400u64 {
        t.mark_processed(2 * pn);
    }
    let ranges = t.get_ack_ranges();
    assert_eq!(ranges.len(), MAX_ACK_RANGES);
    assert_eq!(ranges[0], (798, 798));
    assert_eq!(ranges[127], (544, 544));
}

#[test]
fn ack_ranges_cross_word_boundaries() {
    let mut t = AckTracker::new();
    for pn in 0..300u64 {
        if pn != 100 {
            t.mark_processed(pn);
        }
    }
    assert_eq!(t.get_ack_ranges(), vec![(101, 299), (0, 99)]);
}

#[test]
fn ack_ranges_of_nothing_are_empty() {
    assert!(AckTracker::new().get_ack_ranges().is_empty());
}

#[test]
fn ack_ranges_forget_what_left_the_window() {
    let mut t = AckTracker::new();
    t.mark_processed(0);
    t.mark_processed(1);
    t.mark_processed(2048);
    assert_eq!(t.get_ack_ranges(), vec![(2048, 2048), (1, 1)]);
    t.mark_processed(0);
    assert_eq!(t.get_ack_ranges(), vec![(2048, 2048), (1, 1)]);
}

#[test]
fn replay_is_refused_for_good() {
    let mut w = ReplayWindow::new();
    for pn in [3u64, 70, 65, 4000, 2500] {
        assert!(!w.is_replay(pn));
        w.mark_processed(pn);
        assert!(w.is_replay(pn));
    }
    for pn in [3u64, 65, 70, 2500, 4000] {
        assert!(w.is_replay(pn));
    }
    assert!(!w.is_replay(2501));
    assert!(!w.is_replay(1953));
    assert!(w.is_replay(1952));
}
