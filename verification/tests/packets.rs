//! Packets that are out, and what becomes of them.

use bytes::Bytes;
use zetta_transport::addr::PeerAddr;
use zetta_transport::config::{ZtConfig, MILLISECOND};
use zetta_transport::connection::ZtConnection;
use zetta_transport::error::ZtError;
use zetta_transport::stream_type::StreamType;
use zetta_transport::unacked::{UnackedPacket, UnackedPayload};
use zetta_transport::unacked_window::UnackedWindow;

fn make_packet() -> UnackedPacket {
    UnackedPacket {
        payload: UnackedPayload::Stream {
            stream_id: 0,
            offset: 0,
            stream_type: StreamType::Bidirectional,
            data: Bytes::from_static(b"x"),
        },
        sent_at: 0,
        retries: 0,
        is_mtu_probe: false,
        sent_bytes: 1,
    }
}

fn data_packet(offset: u64, len: usize, sent_at: u64, retries: u32) -> UnackedPacket {
    UnackedPacket {
        payload: UnackedPayload::Stream {
            stream_id: 4,
            offset,
            stream_type: StreamType::Bidirectional,
            data: Bytes::from(vec![7u8; len]),
        },
        sent_at,
        retries,
        is_mtu_probe: false,
        sent_bytes: len + 40,
    }
}

fn connection() -> ZtConnection {
    ZtConnection::new_with_config(
        PeerAddr::V4 { ip4: 0x7f000001, port4: 4433 },
        vec![1; 8],
        vec![2; 8],
        &ZtConfig::default(),
    )
}

fn resent_offsets(list: &[(UnackedPayload, u32)]) -> Vec<(u64, u32)> {
    let mut r = Vec::new();
    for (payload, retries) in list {
        if let UnackedPayload::Stream { offset, .. } = payload {
            r.push((*offset, *retries));
        }
    }
    r
}

#[test]
fn insert_remove_shifts_base_forward() {
    let mut w = UnackedWindow::new();
    w.insert(10, make_packet());
    w.insert(11, make_packet());
    w.insert(12, make_packet());

    assert!(w.remove(10).is_some());
    let keys: Vec<u64> = w.keys();
    assert_eq!(keys, vec![11, 12]);
}

#[test]
fn insert_with_gap_preserves_keys() {
    let mut w = UnackedWindow::new();
    w.insert(5, make_packet());
    w.insert(7, make_packet());

    let keys: Vec<u64> = w.keys();
    assert_eq!(keys, vec![5, 7]);

    assert!(w.remove(5).is_some());
    let keys: Vec<u64> = w.keys();
    assert_eq!(keys, vec![7]);
}

#[test]
fn remove_missing_keeps_len() {
    let mut w = UnackedWindow::new();
    w.insert(1, make_packet());

    assert!(w.remove(0).is_none());
    assert_eq!(w.len(), 1);
}

#[test]
fn duplicate_insert_does_not_grow_len() {
    let mut w = UnackedWindow::new();
    w.insert(3, make_packet());
    w.insert(3, make_packet());
    assert_eq!(w.len(), 1);
}

#[test]
fn a_number_below_the_window_is_not_kept() {
    let mut w = UnackedWindow::new();
    w.insert(9, make_packet());
    w.insert(4, make_packet());
    assert_eq!(w.keys(), vec![9]);
    assert!(w.get(4).is_none());
    assert_eq!(w.lowest(), Some(9));
    w.clear();
    assert!(w.is_empty());
    assert_eq!(w.lowest(), None);
}

#[test]
fn pmtud_binary_search_bounds_follow_probe_results() {
    let mut connection = connection();
    assert_eq!(connection.next_probe_size(), Some(5100));
    connection.record_mtu_probe_failure(5100);
    assert_eq!(connection.mtu_max, 5099);
    assert_eq!(connection.next_probe_size(), Some(3149));
    connection.record_mtu_probe_success(3149);
    assert_eq!(connection.mtu, 3149);
    assert_eq!(connection.mtu_min, 3149);
    assert_eq!(connection.mtu_probe_failures, 1);
    assert_eq!(connection.mtu_probe_successes, 1);
}

#[test]
fn pmtud_blackhole_rolls_back_and_restarts_search_below_failed_mtu() {
    let mut connection = connection();
    connection.record_mtu_probe_success(4096);
    assert!(connection.recover_mtu_blackhole());
    assert_eq!(connection.mtu, 1200);
    assert_eq!(connection.mtu_min, 1200);
    assert_eq!(connection.mtu_max, 4095);
    assert_eq!(connection.mtu_blackhole_recoveries, 1);
    assert!(!connection.recover_mtu_blackhole());
}

#[test]
fn the_search_ends() {
    let mut connection = connection();
    let mut probes = 0;
    while let Some(size) = connection.next_probe_size() {
        probes += 1;
        if size > 1450 {
            connection.record_mtu_probe_failure(size);
        } else {
            connection.record_mtu_probe_success(size);
        }
    }
    assert!(probes <= 14);
    assert!(connection.mtu <= 1450 && connection.mtu >= 1449);
    assert!(connection.mtu_probe_failures > 0);
}

#[test]
fn a_selective_acknowledgement_takes_its_packets_only() {
    let mut c = connection();
    for pn in 0..4u64 {
        c.unacked_packets.insert(pn, data_packet(pn * 100, 100, 10 * MILLISECOND, 0));
    }
    c.bytes_in_flight = 4 * 140;
    let now = 60 * MILLISECOND;
    let out = c.handle_ack(3, 5000, 0, &[(1, 1), (3, 3)], now, 500 * MILLISECOND);
    // Packet 0 is three behind the largest and counts as lost; packet 2 is not.
    assert_eq!(c.unacked_packets.keys(), vec![2]);
    assert_eq!(resent_offsets(&out.fast_retransmits), vec![(0, 0)]);
    assert_eq!(out.bytes_acked, 200);
    assert_eq!(out.loss, Some(333 * MILLISECOND));
    assert!(out.wake_streams);
    assert_eq!(c.bytes_in_flight, 140);
    assert_eq!(c.remote_window, 5000);
    assert_eq!(c.rtt, 50 * MILLISECOND);
    assert_eq!(c.rttvar, 25 * MILLISECOND);
    assert_eq!(c.packets_lost, 1);
    assert_eq!(c.packets_retransmitted, 1);
}

#[test]
fn the_round_trip_time_is_smoothed_and_compensated() {
    let mut c = connection();
    c.unacked_packets.insert(0, data_packet(0, 10, 0, 0));
    let _ = c.handle_ack(0, 1, 0, &[(0, 0)], 100 * MILLISECOND, 0);
    assert_eq!((c.rtt, c.rttvar), (100 * MILLISECOND, 50 * MILLISECOND));
    c.unacked_packets.insert(1, data_packet(10, 10, 100 * MILLISECOND, 0));
    // 200 ms, of which the peer held back 20 ms.
    let _ = c.handle_ack(1, 1, 20_000, &[(1, 1)], 300 * MILLISECOND, 0);
    assert_eq!(c.rtt, (100 * MILLISECOND * 7 + 180 * MILLISECOND) / 8);
    assert_eq!(c.rttvar, (50 * MILLISECOND * 3 + 80 * MILLISECOND) / 4);
    // A packet that was sent twice gives no sample.
    c.unacked_packets.insert(2, data_packet(20, 10, 300 * MILLISECOND, 1));
    let before = (c.rtt, c.rttvar);
    let _ = c.handle_ack(2, 1, 0, &[(2, 2)], 900 * MILLISECOND, 0);
    assert_eq!((c.rtt, c.rttvar), before);
}

#[test]
fn packets_beyond_the_tracked_window_are_done_with() {
    let mut c = connection();
    c.unacked_packets.insert(0, data_packet(0, 10, 0, 0));
    c.unacked_packets.insert(1, data_packet(10, 10, 0, 0));
    let out = c.handle_ack(2048, 7, 0, &[], 0, 0);
    // Packet 0 is no longer tracked; packet 1 is, and is lost by the gap.
    assert_eq!(out.bytes_acked, 10);
    assert_eq!(resent_offsets(&out.fast_retransmits), vec![(10, 0)]);
    assert!(c.unacked_packets.is_empty());
}

#[test]
fn lost_datagrams_are_not_sent_again() {
    let mut c = connection();
    c.unacked_packets.insert(
        0,
        UnackedPacket {
            payload: UnackedPayload::Datagram { data: Bytes::from_static(b"once") },
            sent_at: 0,
            retries: 0,
            is_mtu_probe: false,
            sent_bytes: 44,
        },
    );
    c.bytes_in_flight = 44;
    let out = c.handle_ack(5, 7, 0, &[], 0, 0);
    assert!(out.fast_retransmits.is_empty());
    assert_eq!(out.loss, Some(333 * MILLISECOND));
    assert_eq!(c.bytes_in_flight, 0);
    assert_eq!((c.packets_lost, c.packets_retransmitted), (1, 0));
}

#[test]
fn probes_steer_the_packet_size() {
    let mut c = connection();
    let probe = |size: usize| UnackedPacket {
        payload: UnackedPayload::MtuProbe { target_size: size },
        sent_at: 0,
        retries: 0,
        is_mtu_probe: true,
        sent_bytes: size,
    };
    c.unacked_packets.insert(0, probe(5100));
    c.mtu_probes.insert(0, 5100);
    let out = c.handle_ack(3, 7, 0, &[], 0, 0);
    assert!(out.fast_retransmits.is_empty());
    assert_eq!(out.loss, None);
    assert_eq!(c.mtu_max, 5099);
    assert_eq!(c.mtu_probe_failures, 1);
    c.unacked_packets.insert(4, probe(3149));
    c.mtu_probes.insert(4, 3149);
    let out = c.handle_ack(4, 7, 0, &[(4, 4)], 0, 0);
    assert_eq!(out.bytes_acked, 0);
    assert_eq!((c.mtu, c.mtu_min, c.mtu_probe_successes), (3149, 3149, 1));
    assert!(c.mtu_probes.is_empty());
}

#[test]
fn the_retransmission_timer_sends_again_and_counts() {
    let mut c = connection();
    c.rtt = 10 * MILLISECOND;
    c.rttvar = 20 * MILLISECOND;
    assert_eq!(c.rto(), 90 * MILLISECOND as u128);
    c.unacked_packets.insert(0, data_packet(0, 100, 0, 0));
    c.unacked_packets.insert(1, data_packet(100, 100, 50 * MILLISECOND, 0));
    c.bytes_in_flight = 280;
    let plan = match c.handle_retransmits(91 * MILLISECOND) {
        Ok(p) => p,
        Err(_) => panic!("nothing timed out"),
    };
    assert_eq!(resent_offsets(&plan.resend), vec![(0, 1)]);
    assert_eq!(plan.loss, Some(10 * MILLISECOND));
    assert_eq!(c.unacked_packets.keys(), vec![1]);
    assert_eq!(c.bytes_in_flight, 140);
    assert_eq!((c.packets_lost, c.packets_retransmitted), (1, 1));
}

#[test]
fn a_black_hole_makes_packets_small_again() {
    let mut c = connection();
    c.record_mtu_probe_success(4096);
    c.unacked_packets.insert(0, data_packet(0, 100, 0, 3));
    let plan = match c.handle_retransmits(60_000 * MILLISECOND) {
        Ok(p) => p,
        Err(_) => panic!("the payload may be sent again"),
    };
    assert_eq!(resent_offsets(&plan.resend), vec![(0, 4)]);
    assert_eq!((c.mtu, c.mtu_max), (1200, 4095));
    assert_eq!(c.mtu_blackhole_recoveries, 1);
}

#[test]
fn a_connection_times_out_when_everything_was_tried() {
    let mut c = connection();
    c.unacked_packets.insert(0, data_packet(0, 100, 0, 11));
    let r = c.handle_retransmits(60_000 * MILLISECOND);
    assert!(matches!(r, Err(ZtError::Timeout)));
    assert!(c.unacked_packets.is_empty());
    // With nothing out nothing can time out.
    assert!(c.handle_retransmits(60_001 * MILLISECOND).is_ok());
}

#[test]
fn a_lost_probe_or_datagram_ends_nothing() {
    let probe = |sent_at: u64| UnackedPacket {
        payload: UnackedPayload::MtuProbe { target_size: 5100 },
        sent_at,
        retries: 0,
        is_mtu_probe: true,
        sent_bytes: 5100,
    };
    let datagram = || UnackedPacket {
        payload: UnackedPayload::Datagram { data: Bytes::from_static(b"d") },
        ..data_packet(0, 1, 0, 0)
    };
    let mut c = connection();
    c.unacked_packets.insert(0, probe(0));
    c.mtu_probes.insert(0, 5100);
    match c.handle_retransmits(60_000 * MILLISECOND) {
        Ok(plan) => assert!(plan.resend.is_empty() && plan.loss.is_none()),
        Err(_) => panic!("a quiet connection lives on"),
    }
    assert!(c.unacked_packets.is_empty() && c.mtu_probes.is_empty());
    assert_eq!((c.mtu_probe_failures, c.mtu_max), (1, 5099));
    c.unacked_packets.insert(1, datagram());
    assert!(c.handle_retransmits(60_000 * MILLISECOND).is_ok());
    // What was tried for the last time ends the connection, whatever is lost beside it.
    c.unacked_packets.insert(2, probe(0));
    c.unacked_packets.insert(3, datagram());
    c.unacked_packets.insert(4, data_packet(0, 100, 0, 11));
    assert!(matches!(
        c.handle_retransmits(60_000 * MILLISECOND),
        Err(ZtError::Timeout)
    ));
}

#[test]
fn the_next_deadline_backs_off() {
    let mut c = connection();
    assert_eq!(c.get_next_rto_deadline(), None);
    c.rtt = 10 * MILLISECOND;
    c.rttvar = 0;
    c.unacked_packets.insert(0, data_packet(0, 1, 1000, 2));
    assert_eq!(c.get_next_rto_deadline(), Some(1000 + 4 * 50 * MILLISECOND));
    c.unacked_packets.insert(1, data_packet(1, 1, 2000, 0));
    assert_eq!(c.get_next_rto_deadline(), Some(2000 + 50 * MILLISECOND));
    c.rtt = 5_000 * MILLISECOND;
    let mut d = connection();
    d.rtt = 5_000 * MILLISECOND;
    d.rttvar = 0;
    d.unacked_packets.insert(0, data_packet(0, 1, 0, 9));
    assert_eq!(d.get_next_rto_deadline(), Some(10_000 * MILLISECOND));
}

#[test]
fn packet_numbers_run_out() {
    let mut c = connection();
    assert_eq!(c.get_next_packet_number(), Ok(0));
    assert_eq!(c.get_next_packet_number(), Ok(1));
    c.next_packet_number = u64::MAX;
    assert_eq!(c.get_next_packet_number(), Err(ZtError::PacketNumberOverflow));
    assert_eq!(c.next_packet_number, u64::MAX);
}

#[test]
fn packets_are_listed_and_changed_in_place() {
    let mut w = UnackedWindow::new();
    w.insert(4, data_packet(0, 1, 0, 0));
    w.insert(6, data_packet(9, 2, 0, 0));
    let listed: Vec<(u64, usize)> = w.iter().iter().map(|(pn, p)| (*pn, p.sent_bytes)).collect();
    assert_eq!(listed, vec![(4, 41), (6, 42)]);
    assert!(w.get_mut(5).is_none());
    match w.get_mut(6) {
        Some(p) => p.retries = 7,
        None => panic!("the packet is there"),
    }
    assert_eq!(w.get(6).map(|p| p.retries), Some(7));
    assert_eq!(w.get(4).map(|p| p.retries), Some(0));
}
