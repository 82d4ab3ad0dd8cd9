//! Congestion controllers.

use zetta_transport::config::MILLISECOND;
use zetta_transport::congestion::{
    CongestionControlAlgorithm, CongestionController, CubicController, RenoController,
};

#[test]
fn reno_starts_slowly_and_then_adds() {
    let mut c = RenoController::new(12_000, 1200);
    c.on_packet_acked(1200);
    assert_eq!(c.cwnd, 13_200);
    c.ssthresh = 13_200;
    c.on_packet_acked(1200);
    assert_eq!(c.cwnd, 13_200 + 1200 * 1200 / 13_200);
    // At least one byte.
    c.cwnd = usize::MAX / 2;
    c.ssthresh = 1;
    c.on_packet_acked(1);
    assert_eq!(c.cwnd, usize::MAX / 2 + 1);
}

#[test]
fn reno_halves_once_per_round_trip() {
    let mut c = RenoController::new(20_000, 1200);
    let rtt = 50 * MILLISECOND;
    assert!(c.on_congestion_event(rtt, 100 * MILLISECOND));
    assert_eq!((c.cwnd, c.ssthresh), (10_000, 10_000));
    assert!(!c.on_congestion_event(rtt, 149 * MILLISECOND));
    assert_eq!((c.cwnd, c.ssthresh), (10_000, 10_000));
    assert!(c.on_congestion_event(rtt, 150 * MILLISECOND));
    assert_eq!(c.cwnd, 5000);
    // Never below two segments.
    assert!(c.on_congestion_event(rtt, 200 * MILLISECOND));
    assert!(c.on_congestion_event(rtt, 250 * MILLISECOND));
    assert_eq!(c.cwnd, 2400);
}

#[test]
fn cubic_follows_its_curve_after_a_loss() {
    let mut c = CubicController::new(20_000, 1200);
    let rtt = 50 * MILLISECOND;
    assert!(c.on_congestion_event(rtt, 100 * MILLISECOND, 14_000));
    assert_eq!((c.cwnd, c.ssthresh), (14_000, 14_000));
    assert!(!c.on_congestion_event(rtt, 120 * MILLISECOND, 9800));
    assert_eq!(c.cwnd, 14_000);
    c.on_packet_acked(1200, rtt, 200 * MILLISECOND, 15_000);
    assert!(c.cwnd > 14_000);
    assert!(c.cwnd <= 15_200);
}

#[test]
fn the_algorithm_is_chosen_at_the_start() {
    let mut reno = CongestionController::new(CongestionControlAlgorithm::Reno, 12_000, 1200);
    let mut cubic = CongestionController::new(CongestionControlAlgorithm::Cubic, 12_000, 1200);
    assert_eq!(reno.cwnd(), 12_000);
    assert_eq!(cubic.cwnd(), 12_000);
    assert!(reno.on_congestion_event(MILLISECOND, MILLISECOND, 8400));
    assert!(cubic.on_congestion_event(MILLISECOND, MILLISECOND, 8400));
    assert_eq!(reno.cwnd(), 6000);
    assert_eq!(cubic.cwnd(), 8400);
    reno.set_cwnd(5);
    reno.set_ssthresh(9);
    assert_eq!((reno.cwnd(), reno.ssthresh()), (5, 9));
}
