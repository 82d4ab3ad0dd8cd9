//! Connections that acknowledge cumulatively, and those that repair losses.

use bytes::Bytes;
use std::collections::BTreeMap;
use zetta_transport::addr::PeerAddr;
use zetta_transport::config::{MILLISECOND, SECOND};
use zetta_transport::connection_state::ConnectionState;
use zetta_transport::cumulative::{merge_ranges, StreamState, UnackedPacket, ZtConnection};
use zetta_transport::cumulative_actor::{
    verify_reply, Frame, Protection, Route, ZtConnectionActor, KEY_EPOCH,
};
use zetta_transport::error::{CryptoFault, IoFault, ZtError};
use zetta_transport::frame::PacketType;
use zetta_transport::router::{
    after_cache, after_receive, after_table, is_initial, Handover, ReceiveStep, Reception,
    TableEntry, TableStep, MAX_ACTIVE_CONNECTIONS, RECEIVE_BURST,
};
use zetta_transport::shards::{
    drops_packet, greet, loss_ratio, session_cookie, session_secret, FollowUp, Greeting, Header,
    PacketKind, PacketStep, ShardedConnection, LOSSES_OUT_OF,
};

fn addr() -> PeerAddr {
    PeerAddr::V4 { ip4: 0x0a000001, port4: 5000 }
}

fn connection() -> ZtConnection {
    ZtConnection::new(addr(), vec![1; 8], vec![2; 8], 0)
}

fn actor() -> ZtConnectionActor {
    let mut state = connection();
    state.state = ConnectionState::Active;
    state.has_keys = true;
    ZtConnectionActor { state, pending_acks: 0, last_active_stream_id: 0, next_stream_id: 1 }
}

fn packet(len: usize, sent_at: u64, retries: u32) -> UnackedPacket {
    UnackedPacket {
        data: Bytes::from(vec![retries as u8; len]),
        sent_at,
        retries,
        stream_id: 1,
        start_offset: 0,
        end_offset: 0,
        is_mtu_probe: false,
    }
}

fn data_header(kind: PacketKind, packet_number: u64) -> Header {
    Header {
        kind,
        is_long: false,
        version: 0,
        dcid: vec![1; 8],
        scid: vec![],
        packet_number,
        window_size: 4096,
        stream_id: 0,
        offset: 0,
    }
}

#[test]
fn replays_are_refused() {
    let mut c = connection();
    assert!(!c.is_replay(0));
    c.mark_processed(200);
    c.mark_processed(199);
    c.mark_processed(150);
    assert!(c.is_replay(200));
    assert!(c.is_replay(199));
    assert!(c.is_replay(72));
    assert!(!c.is_replay(73));
    assert!(!c.is_replay(198));
    assert_eq!(c.get_ack_ranges(), vec![(199, 199), (150, 150)]);
    c.mark_processed(1000);
    assert!(c.is_replay(200));
    assert_eq!(c.get_ack_ranges(), vec![]);
}

#[test]
fn an_acknowledgement_covers_everything_below() {
    let mut c = connection();
    for pn in 0..5u64 {
        c.unacked_packets.insert(pn, packet(100, 0, 0));
    }
    c.bytes_in_flight = 500;
    c.handle_ack(2, 7777, &[(4, 4)], 80 * MILLISECOND);
    let left: Vec<u64> = c.unacked_packets.keys().copied().collect();
    assert_eq!(left, vec![3]);
    assert_eq!(c.bytes_in_flight, 100);
    assert_eq!(c.rtt, 80 * MILLISECOND);
    assert_eq!(c.rttvar, 40 * MILLISECOND);
    assert_eq!(c.cwnd, 12_400);
    assert_eq!(c.remote_window, 7777);
}

#[test]
fn a_probe_that_got_through_raises_the_size() {
    let mut c = connection();
    let mut p = packet(1400, 0, 1);
    p.is_mtu_probe = true;
    c.unacked_packets.insert(3, p);
    c.mtu_probes.insert(3, 1400);
    c.handle_ack(3, 1, &[], SECOND);
    assert_eq!(c.mtu, 1400);
    assert!(!c.rtt_initialized);
}

#[test]
fn a_loss_shrinks_the_window() {
    let mut c = connection();
    c.handle_loss();
    assert_eq!((c.ssthresh, c.cwnd), (6000, 9600));
    c.cwnd = 100;
    c.handle_loss();
    assert_eq!((c.ssthresh, c.cwnd), (2400, 6000));
}

#[test]
fn overdue_packets_are_sent_again_or_given_up() {
    let mut c = connection();
    c.rtt = 10 * MILLISECOND;
    c.rttvar = 0;
    c.bytes_in_flight = 60;
    c.unacked_packets.insert(0, packet(10, 0, 0));
    c.unacked_packets.insert(1, packet(20, 0, 11));
    c.unacked_packets.insert(2, packet(30, 100 * MILLISECOND, 0));
    let (resend, r) = c.handle_retransmits(101 * MILLISECOND);
    assert_eq!(r, Ok(()));
    assert_eq!(resend.len(), 1);
    assert_eq!(resend[0].len(), 10);
    assert_eq!(c.unacked_packets[&0].retries, 1);
    assert_eq!(c.unacked_packets[&0].sent_at, 101 * MILLISECOND);
    assert!(!c.unacked_packets.contains_key(&1));
    assert_eq!(c.bytes_in_flight, 40);
    assert_eq!(c.cwnd, 9600);
    // As many given up as are left.
    let mut d = connection();
    d.unacked_packets.insert(0, packet(10, 0, 11));
    d.unacked_packets.insert(1, packet(10, 9 * SECOND, 0));
    let (_, r) = d.handle_retransmits(9 * SECOND);
    assert_eq!(r, Err(ZtError::Timeout));
}

#[test]
fn the_scan_waits_four_round_trips() {
    let mut c = connection();
    c.rtt = 10 * MILLISECOND;
    c.unacked_packets.insert(0, packet(10, 0, 11));
    assert!(c.scan_retransmits(40 * MILLISECOND).is_empty());
    assert_eq!(c.cwnd, 12_000);
    assert!(c.scan_retransmits(41 * MILLISECOND).is_empty());
    assert!(c.unacked_packets.is_empty());
    assert_eq!(c.cwnd, 9600);
}

#[test]
fn ranges_are_merged() {
    let mut m = BTreeMap::new();
    m.insert(0u64, 5u64);
    m.insert(5, 9);
    m.insert(20, 30);
    m.insert(25, 28);
    let merged = merge_ranges(&m);
    let list: Vec<(u64, u64)> = merged.iter().map(|(s, e)| (*s, *e)).collect();
    assert_eq!(list, vec![(0, 9), (20, 30)]);
}

#[test]
fn a_stream_is_put_together() {
    let mut s = StreamState::new();
    s.take_in(3, b"def");
    assert!(s.hand_on(true).is_none());
    s.take_in(0, b"abc");
    assert!(s.hand_on(false).is_none());
    assert_eq!(s.buffered_bytes, 6);
    assert_eq!(s.hand_on(true).map(|b| b.to_vec()), Some(b"abcdef".to_vec()));
    assert_eq!((s.expected_rx_offset, s.buffered_bytes), (6, 0));
    s.take_in(2, b"old");
    assert!(s.hand_on(true).is_none());
}

#[test]
fn keys_change_with_the_epoch_of_packet_numbers() {
    let mut a = actor();
    assert_eq!(a.check_key_rotation(5), (false, false));
    assert_eq!(a.check_key_rotation(KEY_EPOCH), (true, true));
    assert_eq!(a.check_key_rotation(KEY_EPOCH + 1), (true, false));
    assert_eq!(a.state.current_key_epoch, 1);
    assert_eq!(a.check_key_rotation(2 * KEY_EPOCH), (false, true));
}

#[test]
fn data_are_sent_within_the_windows() {
    let mut a = actor();
    let id = a.open_stream();
    assert_eq!(id, 1);
    let (plan, start, end) = match a.process_outgoing_data(id, 1000) {
        Ok(x) => x,
        Err(_) => panic!("there is room"),
    };
    assert_eq!((plan.packet_number, start, end), (0, 0, 1000));
    a.data_sent(&plan, id, (start, end), 1000, Bytes::from(vec![0u8; 1040]), SECOND);
    assert_eq!(a.state.bytes_in_flight, 1040);
    assert_eq!(a.state.remote_window, 1024 * 1024 - 1000);
    assert!(a.state.unacked_packets.contains_key(&0));
    assert!(matches!(a.process_outgoing_data(id, 12_000), Err(ZtError::Io(IoFault::WouldBlock))));
    assert!(matches!(a.process_outgoing_data(77, 10), Err(ZtError::ActorFailed)));
    a.state.has_keys = false;
    assert!(matches!(a.process_outgoing_data(id, 10), Err(ZtError::Unauthorized)));
    a.close_stream(id);
    assert!(a.state.streams.is_empty());
    assert_eq!(a.state.state, ConnectionState::Active);
    a.state.has_keys = true;
    assert!(a.initiate_close().is_ok());
    assert_eq!(a.state.state, ConnectionState::Closing);
}

#[test]
fn frames_are_handled() {
    let mut a = actor();
    let frame = |offset: u64, data: &'static [u8]| Frame::Stream {
        id: 4,
        offset,
        data: Bytes::from_static(data),
    };
    let out = a.handle_frame(frame(2, b"cd"), true, 0);
    assert_eq!(out.opened, Some(4));
    assert!(out.chunk.is_none());
    assert_eq!(a.next_stream_id, 5);
    let out = a.handle_frame(frame(0, b"ab"), true, 0);
    assert_eq!(out.chunk.map(|b| b.to_vec()), Some(b"abcd".to_vec()));
    a.pending_acks = 9;
    let out = a.handle_frame(frame(4, b"e"), true, 0);
    assert!(out.flush_acks);
    match a.plan_acks() {
        Some((Ok(plan), Frame::Ack { largest_acked, window_size, ack_ranges })) => {
            assert_eq!(plan.packet_number, 0);
            assert_eq!((largest_acked, window_size), (0, 1024 * 1024));
            assert!(ack_ranges.is_empty());
        }
        _ => panic!("acknowledgements are pending"),
    }
    a.acks_flushed();
    assert!(a.plan_acks().is_none());
    let _ = a.handle_frame(Frame::StreamClose { id: 4 }, true, 0);
    assert!(a.state.streams.is_empty());
    let _ = a.handle_frame(Frame::ConnectionClose, true, 0);
    assert_eq!(a.state.state, ConnectionState::Closed);
}

#[test]
fn a_shorter_piece_forgets_nothing() {
    let mut a = actor();
    let frame = |offset: u64, data: &'static [u8]| Frame::Stream {
        id: 4,
        offset,
        data: Bytes::from_static(data),
    };
    let _ = a.handle_frame(frame(2, b"cdef"), true, 0);
    let _ = a.handle_frame(frame(2, b"cd"), true, 0);
    assert_eq!(a.state.streams[&4].received_ranges.get(&2), Some(&6));
    let out = a.handle_frame(frame(0, b"ab"), true, 0);
    assert_eq!(out.chunk.map(|b| b.to_vec()), Some(b"abcdef".to_vec()));
}

#[test]
fn large_amounts_are_compared_in_full() {
    let mut a = actor();
    let id = a.open_stream();
    a.state.cwnd = usize::MAX;
    // One byte more than 32 bits can count.
    let len = u32::MAX as usize + 2;
    assert!(matches!(a.process_outgoing_data(id, len), Err(ZtError::Io(IoFault::WouldBlock))));
    let _ = a.handle_frame(
        Frame::Stream { id, offset: 5, data: Bytes::from_static(b"x") },
        true,
        0,
    );
    if let Some(s) = a.state.streams.get_mut(&id) {
        s.buffered_bytes = u32::MAX as usize + 1;
    }
    match a.plan_acks() {
        Some((Ok(_), Frame::Ack { window_size, .. })) => assert_eq!(window_size, 0),
        _ => panic!("acknowledgements are pending"),
    }
}

#[test]
fn arriving_packets_find_their_keys() {
    let mut a = actor();
    assert_eq!(a.receive_packet(&[0x00, 1]), Ok(Protection::Session { previous: false }));
    assert_eq!(a.receive_packet(&[0x40]), Ok(Protection::Session { previous: true }));
    assert_eq!(a.receive_packet(&[0xc0]), Ok(Protection::Initial));
    assert_eq!(a.state.bytes_received, 4);
    a.packet_opened(10, addr());
    assert_eq!(
        a.route_packet(PacketType::Data, 10, true, false, false, 40),
        (false, Ok(Route::Ignore))
    );
    assert_eq!(
        a.route_packet(PacketType::Data, 9, true, true, true, 40),
        (false, Ok(Route::Open { rotate: false, previous: true }))
    );
    assert_eq!(
        a.route_packet(PacketType::Data, 11, true, true, true, 40),
        (true, Ok(Route::Open { rotate: true, previous: false }))
    );
    assert_eq!(a.state.current_key_epoch, 1);
    assert_eq!(
        a.route_packet(PacketType::Retry, 12, false, false, false, 40),
        (false, Ok(Route::Ignore))
    );
}

#[test]
fn probe_sizes_climb_a_ladder() {
    let mut a = actor();
    for (mtu, want) in [(1200usize, 1350usize), (1350, 1400), (1400, 1450), (1450, 1500)] {
        a.state.mtu = mtu;
        match a.plan_mtu_probe() {
            Some((size, Ok(plan))) => {
                assert_eq!(size, want);
                a.mtu_probe_sent(plan.packet_number, size, Bytes::from(vec![0u8; size]), 0);
            }
            _ => panic!("there is a larger size"),
        }
    }
    a.state.mtu = 1500;
    assert!(a.plan_mtu_probe().is_none());
    assert_eq!(a.state.mtu_probes.len(), 4);
}

#[test]
fn control_packets_are_kept_but_not_in_flight() {
    let mut a = actor();
    let in_flight = a.state.bytes_in_flight;
    a.control_sent(40, 6, Bytes::from_static(b"close"), 9);
    let kept = &a.state.unacked_packets[&40];
    assert_eq!(kept.data, Bytes::from_static(b"close"));
    assert_eq!((kept.sent_at, kept.retries, kept.stream_id), (9, 0, 6));
    assert!(!kept.is_mtu_probe);
    assert_eq!(a.state.bytes_in_flight, in_flight);
}

#[test]
fn sending_is_limited_before_the_handshake() {
    let mut a = actor();
    a.state.state = ConnectionState::Handshaking;
    a.state.bytes_received = 100;
    a.record_sent(250);
    assert!(a.may_send(50));
    assert!(!a.may_send(51));
    a.complete_handshake(vec![9; 8], addr(), 3);
    assert!(a.may_send(51));
    assert_eq!(a.state.dcid, vec![9; 8]);
    assert!(a.state.is_replay(3));
    assert_eq!(
        verify_reply(&[1; 32], &[2; 32], &[0; 64]),
        Err(ZtError::Crypto(CryptoFault::InvalidEdPk))
    );
}

#[test]
fn one_lost_packet_of_four_is_repaired() {
    let mut c = ShardedConnection::accepted(addr(), vec![1; 8], vec![2; 8], 0);
    let key = [0u8; 32];
    for pn in [10u64, 11, 13] {
        let h = data_header(PacketKind::Data, pn);
        assert!(matches!(c.packet_arrived(&h, b"cipher", &key, SECOND), PacketStep::Open));
        let payload = Bytes::from(vec![pn as u8; 6]);
        match c.packet_opened(&h, &payload, Some(b"plain".to_vec()), addr(), SECOND) {
            Ok(FollowUp::Deliver { packet_number, data }) => {
                assert_eq!(packet_number, pn);
                assert_eq!(data, Some(b"plain".to_vec()));
            }
            _ => panic!("data have to be delivered"),
        }
    }
    let fec = data_header(PacketKind::Fec, 14);
    let payload = Bytes::from_static(b"fec");
    match c.packet_opened(&fec, &payload, Some(vec![7, 7]), addr(), SECOND) {
        Ok(FollowUp::Repair { missing, shards, parity }) => {
            assert_eq!(missing, 12);
            assert_eq!(shards.len(), 3);
            assert_eq!(shards[2].to_vec(), vec![13u8; 6]);
            assert_eq!(parity, vec![7, 7]);
        }
        _ => panic!("one packet is missing"),
    }
    assert!(c.received_shards.is_empty());
    match c.packet_repaired(12, Some(vec![])) {
        FollowUp::Deliver { packet_number: 12, data: None } => {}
        _ => panic!("the packet has to be acknowledged"),
    }
    assert!(c.core.is_replay(12));
    let again = data_header(PacketKind::Data, 12);
    assert!(matches!(c.packet_arrived(&again, b"x", &key, SECOND), PacketStep::Ignore));
}

#[test]
fn only_the_newest_shards_are_kept() {
    let mut c = ShardedConnection::accepted(addr(), vec![1; 8], vec![2; 8], 0);
    for pn in 1..=6u64 {
        let h = data_header(PacketKind::Data, pn);
        let _ = c.packet_opened(&h, &Bytes::from_static(b"s"), Some(vec![]), addr(), 0);
    }
    let kept: Vec<u64> = c.received_shards.keys().copied().collect();
    assert_eq!(kept, vec![3, 4, 5, 6]);
    let h = data_header(PacketKind::Data, 7);
    let r = c.packet_opened(&h, &Bytes::from_static(b"s"), None, addr(), 0);
    assert!(matches!(r, Err(ZtError::Crypto(CryptoFault::DecryptionFailed))));
    let ack = data_header(PacketKind::Ack, 7);
    assert!(matches!(
        c.packet_opened(&ack, &Bytes::from_static(b"s"), Some(vec![]), addr(), 0),
        Ok(FollowUp::Nothing)
    ));
    assert_eq!(c.core.remote_window, 4096);
    let close = data_header(PacketKind::Close, 8);
    let _ = c.packet_opened(&close, &Bytes::from_static(b"s"), Some(vec![]), addr(), 0);
    assert_eq!(c.core.state, ConnectionState::Closed);
}

#[test]
fn a_retry_is_answered_and_then_accepted() {
    let secret = [3u8; 32];
    let client_key = [4u8; 32];
    let mut first = data_header(PacketKind::Initial, 5);
    first.is_long = true;
    first.scid = vec![8; 8];
    let cookie = match greet(&first, &client_key, &secret, b"10.0.0.1:5000") {
        Greeting::Retry { header, cookie } => {
            assert_eq!(header.kind, PacketKind::Retry);
            assert_eq!(header.dcid, vec![8; 8]);
            assert_eq!(header.packet_number, 5);
            cookie
        }
        _ => panic!("the address is not proved"),
    };
    assert_eq!(cookie, session_cookie(&secret, b"10.0.0.1:5000", &[8; 8]).to_vec());
    let mut client = ShardedConnection::accepted(addr(), vec![8; 8], vec![0; 8], 0);
    client.core.state = ConnectionState::Handshaking;
    let retry = data_header(PacketKind::Retry, 5);
    let body = match client.packet_arrived(&retry, &cookie, &client_key, SECOND) {
        PacketStep::AnswerRetry { header, body, to } => {
            assert_eq!(header.kind, PacketKind::Initial);
            assert_eq!(header.dcid, vec![0u8; 8]);
            assert_eq!(header.scid, vec![8; 8]);
            assert_eq!(to, addr());
            body
        }
        _ => panic!("a retry has to be answered"),
    };
    match greet(&first, &body, &secret, b"10.0.0.1:5000") {
        Greeting::Accept { peer_key } => assert_eq!(peer_key, client_key),
        _ => panic!("the cookie is good"),
    }
    assert!(matches!(greet(&first, &body, &secret, b"10.0.0.2:5000"), Greeting::Retry { .. }));
    assert!(matches!(greet(&first, &[1; 31], &secret, b"x"), Greeting::Ignore));
    let reply = data_header(PacketKind::Handshake, 6);
    match client.packet_arrived(&reply, &[6; 40], &client_key, SECOND) {
        PacketStep::Agree { peer_key } => assert_eq!(peer_key, [6; 32]),
        _ => panic!("the server's key is there"),
    }
    assert!(matches!(
        client.keys_agreed(&reply, addr()),
        FollowUp::Greet { packet_number: 6 }
    ));
    assert_eq!(client.core.state, ConnectionState::Active);
}

#[test]
fn lasting_keys_agree_on_a_secret() {
    let mut base = [0u8; 32];
    base[0] = 9;
    let (ours, theirs) = ([21u8; 32], [43u8; 32]);
    let our_public = session_secret(&ours, &base);
    let their_public = session_secret(&theirs, &base);
    let shared = session_secret(&ours, &their_public);
    assert_eq!(shared, session_secret(&theirs, &our_public));
    assert_ne!(shared, their_public);
    assert_ne!(shared, our_public);
}

#[test]
fn idle_connections_are_cleaned_up_and_forgotten() {
    let mut c = ShardedConnection::accepted(addr(), vec![1; 8], vec![2; 8], 0);
    c.core.unacked_packets.insert(0, packet(10, 0, 0));
    c.sent_shards.push(Bytes::from_static(b"s"));
    c.clean_up(60 * SECOND);
    assert_eq!(c.core.unacked_packets.len(), 1);
    c.clean_up(60 * SECOND + 1);
    assert!(c.core.unacked_packets.is_empty());
    assert!(c.sent_shards.is_empty());
    assert!(!c.session_expired(3600 * SECOND - 1));
    assert!(c.session_expired(3600 * SECOND));
    let h = ShardedConnection::repair_header(&[5; 8], 3);
    assert_eq!((h.kind, h.packet_number), (PacketKind::Data, 3));
}

#[test]
fn chaos_loses_some_packets() {
    assert_eq!(loss_ratio(false), 0);
    assert_eq!((loss_ratio(true), LOSSES_OUT_OF), (2, 10));
    for _ in 0..100 {
        assert!(!drops_packet(false));
    }
    let mut lost = 0;
    for _ in 0..1000 {
        if drops_packet(true) {
            lost += 1;
        }
    }
    assert!(lost > 50 && lost < 500);
}

#[test]
fn datagrams_are_routed() {
    let mut initial = vec![0u8; 1200];
    assert!(!is_initial(&initial));
    initial[0] = 0x80;
    assert!(is_initial(&initial));
    assert!(!is_initial(&initial[..1199]));
    let s = after_cache(Handover::Refused);
    assert!(s.evict && s.look_further);
    let s = after_cache(Handover::Taken);
    assert!(!s.evict && !s.look_further);
    let s = after_cache(Handover::Unknown);
    assert!(!s.evict && s.look_further);
    assert!(after_cache(Handover::Gone).evict);
    assert_eq!(after_table(TableEntry::Gone, &initial, 0), TableStep::Forget);
    assert_eq!(after_table(TableEntry::Open, &initial, 0), TableStep::Forward);
    assert_eq!(after_table(TableEntry::Unknown, &initial, 999), TableStep::Handshake);
    assert_eq!(
        after_table(TableEntry::Unknown, &initial, MAX_ACTIVE_CONNECTIONS),
        TableStep::AtCapacity
    );
    assert_eq!(after_table(TableEntry::Unknown, &[0x80], 0), TableStep::Drop);
    assert_eq!(after_receive(0, Reception::WouldBlock), ReceiveStep::Wait);
    assert_eq!(after_receive(3, Reception::WouldBlock), ReceiveStep::StartOver);
    assert_eq!(after_receive(3, Reception::Datagram), ReceiveStep::Route);
    assert_eq!(after_receive(RECEIVE_BURST, Reception::Datagram), ReceiveStep::StartOver);
    assert_eq!(after_receive(0, Reception::Failed), ReceiveStep::StartOver);
}
