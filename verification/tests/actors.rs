//! What a connection's owner decides.

use bytes::Bytes;
use zetta_transport::actor::{ZtConnectionActor, KEY_UPDATE_PACKET_INTERVAL};
use zetta_transport::addr::PeerAddr;
use zetta_transport::config::{ZtConfig, MILLISECOND, SECOND};
use zetta_transport::congestion::CongestionControlAlgorithm;
use zetta_transport::connection::ZtConnection;
use zetta_transport::connection_state::{ConnectionState, TerminationReason};
use zetta_transport::error::{PacketFault, ZtError};
use zetta_transport::event_loop::{ActorMessage, Reply, Timers, ACK_DELAY, CLOSE_LINGER};
use zetta_transport::frame::{Frame, PacketHeader, PacketType};
use zetta_transport::incoming::{
    header_len, FrameContext, FrameOutcome, KeyChoice, PacketRoute, Protection,
};
use zetta_transport::outgoing::{initial_padding, piece_len};
use zetta_transport::stream_type::StreamType;
use zetta_transport::unacked::{CloseReason, UnackedPayload};

const ORIGINAL: PeerAddr = PeerAddr::V4 { ip4: 0x7f000001, port4: 12345 };
const MIGRATED: PeerAddr = PeerAddr::V4 { ip4: 0x7f000001, port4: 54321 };

fn actor(is_client: bool) -> ZtConnectionActor {
    let conn = ZtConnection::new(ORIGINAL, vec![1, 2, 3, 4], vec![5, 6, 7, 8]);
    ZtConnectionActor::new(conn, 1024 * 1024, is_client)
}

fn active(is_client: bool) -> ZtConnectionActor {
    let mut a = actor(is_client);
    a.state.state = ConnectionState::Active;
    a.state.has_keys = true;
    a
}

fn context(addr: PeerAddr) -> FrameContext {
    FrameContext {
        addr,
        now: SECOND,
        scaled_rtt: 400 * MILLISECOND,
        accepting: true,
        room: true,
        buffer_limit: 64 * 1024 * 1024,
    }
}

fn stream_frame(id: u32, offset: u64, data: &'static [u8]) -> Frame {
    Frame::Stream {
        id,
        offset,
        stream_type: StreamType::Bidirectional,
        data: Bytes::from_static(data),
    }
}

fn chunk_of(r: FrameOutcome) -> Option<Vec<u8>> {
    match r {
        FrameOutcome::Stream(out) => match out.forwarded.chunk {
            Some(b) => Some(b.to_vec()),
            None => None,
        },
        _ => None,
    }
}

fn header(p_type: PacketType, packet_number: u64, key_phase: bool) -> PacketHeader {
    PacketHeader {
        p_type,
        is_long: false,
        version: 0,
        dcid: vec![1, 2, 3, 4],
        scid: vec![],
        packet_number,
        key_phase,
    }
}

#[test]
fn test_incoming_handler_path_validation() {
    let mut actor = actor(false);
    actor.state.state = ConnectionState::Active;

    // A challenge from the new address is answered there.
    let challenge_token = [0xAA; 8];
    let res = actor.handle_frame(
        Frame::PathChallenge { token: challenge_token },
        &context(MIGRATED),
    );
    assert!(res.is_ok());
    match res {
        Ok(FrameOutcome::Send { frame: Frame::PathResponse { token }, addr }) => {
            assert_eq!(token, challenge_token);
            assert_eq!(addr, MIGRATED);
        }
        _ => panic!("a challenge has to be answered"),
    }

    actor.pending_validation_addr = Some(MIGRATED);
    actor.path_validation_token = Some(challenge_token);

    let res = actor.handle_frame(
        Frame::PathResponse { token: challenge_token },
        &context(MIGRATED),
    );
    assert!(res.is_ok());

    assert_eq!(actor.state.addr, MIGRATED);
    assert_eq!(actor.pending_validation_addr, None);
    assert_eq!(actor.path_validation_token, None);
}

#[test]
fn test_incoming_handler_max_streams_limit_update() {
    let mut actor = actor(false);
    assert_eq!(actor.state.peer_max_streams, 100);

    let res = actor.handle_frame(Frame::MaxStreams { max_streams: 150 }, &context(ORIGINAL));
    assert!(res.is_ok());
    assert_eq!(actor.state.peer_max_streams, 150);

    let res = actor.handle_frame(Frame::MaxStreams { max_streams: 80 }, &context(ORIGINAL));
    assert!(res.is_ok());
    assert_eq!(actor.state.peer_max_streams, 150);
}

#[test]
fn a_wrong_token_does_not_move_a_connection() {
    let mut a = active(false);
    a.pending_validation_addr = Some(MIGRATED);
    a.path_validation_token = Some([1; 8]);
    let _ = a.handle_frame(Frame::PathResponse { token: [2; 8] }, &context(MIGRATED));
    assert_eq!(a.state.addr, ORIGINAL);
    let _ = a.handle_frame(Frame::PathResponse { token: [1; 8] }, &context(ORIGINAL));
    assert_eq!(a.state.addr, ORIGINAL);
    let _ = a.handle_frame(Frame::PathResponse { token: [1; 8] }, &context(MIGRATED));
    assert_eq!(a.state.addr, MIGRATED);
}

#[test]
fn a_packet_from_elsewhere_is_validated_once() {
    let mut a = active(true);
    let first = a.on_packet_opened(7, MIGRATED, false, SECOND);
    assert!(first.is_some());
    assert_eq!(a.path_validation_token, first);
    assert_eq!(a.pending_validation_addr, Some(MIGRATED));
    assert!(a.on_packet_opened(8, MIGRATED, false, SECOND).is_none());
    assert_eq!(a.state.addr, ORIGINAL);
    assert!(a.state.is_replay(7));
    assert!(!a.state.is_replay(9));
    assert_eq!(a.state.get_ack_ranges(), vec![(7, 8)]);
}

#[test]
fn path_challenges_are_repeated_and_given_up() {
    let mut a = active(true);
    let token = a.packet_opened(1, MIGRATED, false, [9; 8], SECOND);
    assert_eq!(token, Some([9; 8]));
    for i in 0..3u32 {
        match a.on_path_validation_timer(3, 2 * SECOND) {
            Some((Frame::PathChallenge { token }, addr)) => {
                assert_eq!(token, [9; 8]);
                assert_eq!(addr, MIGRATED);
            }
            _ => panic!("the challenge has to go out again"),
        }
        assert_eq!(a.path_validation_retries, i + 1);
        assert_eq!(a.path_validation_sent_at, Some(2 * SECOND));
    }
    assert!(a.on_path_validation_timer(3, 3 * SECOND).is_none());
    assert_eq!(a.pending_validation_addr, None);
    assert_eq!(a.path_validation_retries, 0);
}

#[test]
fn stream_data_come_out_in_order() {
    let mut a = active(true);
    // A server's stream has an odd id.
    let r = a.handle_frame(stream_frame(1, 5, b"world"), &context(ORIGINAL));
    match r {
        Ok(FrameOutcome::Stream(out)) => {
            assert_eq!(out.opened, Some(StreamType::Bidirectional));
            assert!(out.forwarded.chunk.is_none());
        }
        _ => panic!("the data have to be taken in"),
    }
    let r = a.handle_frame(stream_frame(1, 0, b"hello"), &context(ORIGINAL));
    match r {
        Ok(out) => assert_eq!(chunk_of(out), Some(b"helloworld".to_vec())),
        Err(_) => panic!("the data have to be taken in"),
    }
    // The same data again change nothing.
    let r = a.handle_frame(stream_frame(1, 0, b"hello"), &context(ORIGINAL));
    match r {
        Ok(out) => assert_eq!(chunk_of(out), None),
        Err(_) => panic!("old data are no error"),
    }
    assert_eq!(a.pending_acks, 3);
    assert_eq!(a.state.streams[&1].expected_rx_offset, 10);
}

#[test]
fn data_wait_for_the_application() {
    let mut a = active(true);
    let mut ctx = context(ORIGINAL);
    ctx.room = false;
    let r = a.handle_frame(stream_frame(1, 0, b"later"), &ctx);
    match r {
        Ok(out) => assert_eq!(chunk_of(out), None),
        Err(_) => panic!("the data have to be taken in"),
    }
    assert_eq!(a.state.get_total_buffered_bytes(), 5);
    let f = a.forward_stream_data(1, true, 2 * SECOND, 64 * 1024 * 1024);
    match f.chunk {
        Some(b) => assert_eq!(b.to_vec(), b"later".to_vec()),
        None => panic!("the data were waiting"),
    }
    assert_eq!(a.state.get_total_buffered_bytes(), 0);
}

#[test]
fn a_stream_of_the_wrong_side_is_refused() {
    let mut a = active(true);
    match a.handle_frame(stream_frame(4, 0, b"x"), &context(ORIGINAL)) {
        Err(fault) => assert_eq!(
            fault.error,
            ZtError::InvalidPacket(PacketFault::InvalidStreamParity)
        ),
        Ok(_) => panic!("even ids belong to the client"),
    }
}

#[test]
fn data_beyond_the_window_are_refused() {
    let mut a = active(true);
    match a.handle_frame(stream_frame(1, 1024 * 1024, b"x"), &context(ORIGINAL)) {
        Err(fault) => assert_eq!(
            fault.error,
            ZtError::InvalidPacket(PacketFault::ReceiveWindowExceeded)
        ),
        Ok(_) => panic!("the window ends there"),
    }
}

#[test]
fn a_stream_ends_after_its_last_byte() {
    let mut a = active(true);
    let _ = a.handle_frame(stream_frame(1, 0, b"abc"), &context(ORIGINAL));
    let r = a.handle_frame(Frame::StreamClose { id: 1, final_offset: 6 }, &context(ORIGINAL));
    assert!(matches!(r, Ok(FrameOutcome::Nothing)));
    match a.handle_frame(stream_frame(1, 3, b"def"), &context(ORIGINAL)) {
        Ok(FrameOutcome::Stream(out)) => {
            assert!(out.forwarded.finished);
            assert_eq!(out.forwarded.chunk.map(|b| b.to_vec()), Some(b"def".to_vec()));
        }
        _ => panic!("the tail has to come through"),
    }
    assert!(!a.state.streams.contains_key(&1));
    // A close after everything was read ends the stream at once.
    let _ = a.handle_frame(stream_frame(3, 0, b"abc"), &context(ORIGINAL));
    let r = a.handle_frame(Frame::StreamClose { id: 3, final_offset: 3 }, &context(ORIGINAL));
    assert!(matches!(r, Ok(FrameOutcome::StreamEnded { id: 3 })));
}

#[test]
fn a_reset_carries_its_code() {
    let mut a = active(true);
    let _ = a.handle_frame(stream_frame(1, 0, b"abc"), &context(ORIGINAL));
    let r = a.handle_frame(Frame::StreamReset { id: 1, error_code: 77 }, &context(ORIGINAL));
    assert!(matches!(r, Ok(FrameOutcome::StreamReset { id: 1, error_code: 77 })));
    assert!(a.state.streams.is_empty());
}

#[test]
fn a_close_carries_its_reason() {
    let mut a = active(true);
    let reason = CloseReason { error_code: 9, reason: b"done".to_vec() };
    let r = a.handle_frame(Frame::ConnectionClose { error: Some(reason) }, &context(ORIGINAL));
    assert!(matches!(r, Ok(FrameOutcome::PeerClosed)));
    assert_eq!(a.state.state, ConnectionState::Closed);
    assert!(a.state.closed);
    match &a.state.termination {
        Some(TerminationReason::ClosedByPeer { error_code, reason }) => {
            assert_eq!(*error_code, 9);
            assert_eq!(reason.as_slice(), b"done");
        }
        _ => panic!("the reason has to be kept"),
    }
    assert_eq!(a.linger(), Some(3 * 333 * MILLISECOND));
}

#[test]
fn credit_follows_the_announced_limits() {
    let mut a = active(true);
    let id = match a.open_stream(StreamType::Bidirectional, SECOND) {
        Ok(id) => id,
        Err(_) => panic!("there is room for a stream"),
    };
    assert_eq!(id, 2);
    assert_eq!(a.process_outgoing_data(id, Bytes::from(vec![1u8; 600])), Ok(()));
    assert_eq!(a.state.streams[&id].next_tx_offset, 600);
    assert_eq!(a.state.streams[&id].tx_window, 1024 * 1024 - 600);
    assert_eq!(a.state.remote_window, 1024 * 1024 - 600);
    assert_eq!(a.state.queued_bytes, 600);
    let r = a.handle_frame(Frame::MaxStreamData { id, max_data: 700 }, &context(ORIGINAL));
    assert!(matches!(r, Ok(FrameOutcome::Nothing)));
    assert_eq!(a.state.streams[&id].tx_window, 100);
    assert_eq!(
        a.process_outgoing_data(id, Bytes::from(vec![1u8; 101])),
        Err(ZtError::FlowControlBlocked)
    );
    let r = a.handle_frame(Frame::MaxStreamData { id, max_data: 5000 }, &context(ORIGINAL));
    assert!(matches!(r, Ok(FrameOutcome::WakeStream { id: 2 })));
    let r = a.handle_frame(Frame::MaxData { max_data: 650 }, &context(ORIGINAL));
    assert!(matches!(r, Ok(FrameOutcome::Nothing)));
    assert_eq!(
        a.process_outgoing_data(id, Bytes::from(vec![1u8; 51])),
        Err(ZtError::FlowControlBlocked)
    );
    let r = a.handle_frame(Frame::MaxData { max_data: 100_000 }, &context(ORIGINAL));
    assert!(matches!(r, Ok(FrameOutcome::WakeAll)));
    assert_eq!(a.state.remote_window, 99_400);
    let r = a.handle_frame(Frame::MaxData { max_data: u64::MAX }, &context(ORIGINAL));
    assert!(matches!(r, Ok(FrameOutcome::WakeAll)));
    assert_eq!(a.state.remote_window, u64::from(u32::MAX));
}

#[test]
fn sending_has_its_limits() {
    let mut a = active(true);
    assert_eq!(
        a.process_outgoing_data(8, Bytes::from_static(b"x")),
        Err(ZtError::ActorFailed)
    );
    let id = match a.open_stream(StreamType::UnidirectionalOut, SECOND) {
        Ok(id) => id,
        Err(_) => panic!("there is room for a stream"),
    };
    assert_eq!(
        a.process_outgoing_data(id, Bytes::from(vec![0u8; 12_001])),
        Err(ZtError::CongestionWindowFull)
    );
    assert_eq!(a.process_outgoing_data(id, Bytes::from(vec![0u8; 12_000])), Ok(()));
    // What only the peer may send on.
    let _ = a.handle_frame(
        Frame::Stream {
            id: 1,
            offset: 0,
            stream_type: StreamType::UnidirectionalOut,
            data: Bytes::from_static(b"in"),
        },
        &context(ORIGINAL),
    );
    assert_eq!(a.state.streams[&1].stream_type, StreamType::UnidirectionalIn);
    assert_eq!(
        a.process_outgoing_data(1, Bytes::from_static(b"x")),
        Err(ZtError::InvalidPacket(PacketFault::ReceiveOnlyStream))
    );
}

#[test]
fn streams_are_opened_up_to_the_peers_limit() {
    let mut a = active(false);
    a.state.peer_max_streams = 2;
    for want in [1u32, 3] {
        match a.open_stream(StreamType::Bidirectional, 0) {
            Ok(id) => assert_eq!(id, want),
            Err(_) => panic!("below the limit"),
        }
    }
    match a.open_stream(StreamType::Bidirectional, 0) {
        Err(refusal) => {
            assert_eq!(refusal.error, ZtError::TooManyStreams { limit: 2 });
            assert_eq!(refusal.blocked_at, Some(2));
        }
        Ok(_) => panic!("above the limit"),
    }
    match a.open_stream(StreamType::UnidirectionalIn, 0) {
        Err(refusal) => assert_eq!(
            refusal.error,
            ZtError::InvalidPacket(PacketFault::ReceiveOnlyStream)
        ),
        Ok(_) => panic!("the peer opens those"),
    }
    a.state.peer_max_streams = 100;
    a.next_stream_id = u32::MAX;
    match a.open_stream(StreamType::Bidirectional, 0) {
        Err(refusal) => assert_eq!(refusal.error, ZtError::ConnectionIdExhausted),
        Ok(_) => panic!("the ids have run out"),
    }
}

#[test]
fn the_pacing_queue_is_first_in_first_out() {
    let mut a = active(true);
    let id = match a.open_stream(StreamType::Bidirectional, 0) {
        Ok(id) => id,
        Err(_) => panic!("there is room for a stream"),
    };
    let _ = a.process_outgoing_data(id, Bytes::from_static(b"first"));
    assert_eq!(a.send_datagram(Bytes::from_static(b"second!")), Ok(()));
    assert_eq!(a.next_paced_len(), Some(5));
    assert_eq!(a.state.queued_bytes, 12);
    match a.take_paced() {
        Some((UnackedPayload::Stream { offset, data, .. }, 0)) => {
            assert_eq!(offset, 0);
            assert_eq!(data.to_vec(), b"first".to_vec());
        }
        _ => panic!("what was queued first goes first"),
    }
    assert_eq!(a.next_paced_len(), Some(7));
    assert_eq!(a.state.queued_bytes, 7);
    assert!(matches!(a.take_paced(), Some((UnackedPayload::Datagram { .. }, 0))));
    assert!(a.take_paced().is_none());
}

#[test]
fn datagrams_have_to_fit() {
    let mut a = active(true);
    assert_eq!(
        a.send_datagram(Bytes::from(vec![0u8; 1137])),
        Err(ZtError::InvalidPacket(PacketFault::DatagramTooLarge { limit: 1136 }))
    );
    assert_eq!(a.send_datagram(Bytes::from(vec![0u8; 1136])), Ok(()));
    a.state.bytes_in_flight = 12_000;
    assert_eq!(
        a.send_datagram(Bytes::from_static(b"x")),
        Err(ZtError::CongestionWindowFull)
    );
}

#[test]
fn packets_are_numbered_and_kept() {
    let mut a = active(true);
    let plan = match a.plan_packet() {
        Ok(p) => p,
        Err(_) => panic!("the connection has keys"),
    };
    assert_eq!((plan.packet_number, plan.reference, plan.key_phase), (0, 0, false));
    assert_eq!(plan.dcid, vec![5, 6, 7, 8]);
    let payload = UnackedPayload::StreamClose { stream_id: 2, final_offset: 6 };
    assert!(!a.payload_sent(0, payload, 0, 60, SECOND));
    assert_eq!(a.state.bytes_in_flight, 60);
    assert_eq!(a.state.packets_since_key_update, 1);
    assert_eq!(a.state.unacked_packets.keys(), vec![0]);
    let mut b = active(true);
    b.state.has_keys = false;
    assert!(matches!(b.plan_packet(), Err(ZtError::Unauthorized)));
    assert_eq!(b.state.next_packet_number, 1);
    b.state.next_packet_number = u64::MAX;
    assert!(matches!(b.plan_packet(), Err(ZtError::PacketNumberOverflow)));
}

#[test]
fn keys_are_changed_after_enough_packets() {
    let mut a = active(true);
    a.state.packets_since_key_update = KEY_UPDATE_PACKET_INTERVAL - 2;
    assert!(!a.note_packet_sent());
    assert!(!a.current_key_phase());
    assert!(a.note_packet_sent());
    assert_eq!((a.state.current_key_epoch, a.state.packets_since_key_update), (1, 0));
    assert!(a.current_key_phase());
}

#[test]
fn a_server_does_not_amplify() {
    let mut a = actor(false);
    a.state.bytes_received = 1200;
    assert!(a.may_send(3600));
    assert!(!a.may_send(3601));
    a.record_sent(3000);
    assert!(a.may_send(600));
    assert!(!a.may_send(601));
    a.state.state = ConnectionState::Active;
    assert!(a.may_send(1_000_000));
    assert!(actor(true).may_send(1_000_000));
}

#[test]
fn acknowledgements_say_what_arrived() {
    let mut a = active(true);
    assert!(matches!(a.plan_acks(SECOND), Ok(None)));
    let _ = a.packet_opened(4, ORIGINAL, false, [0; 8], SECOND);
    let _ = a.packet_opened(2, ORIGINAL, false, [0; 8], SECOND);
    a.pending_acks = 2;
    match a.plan_acks(SECOND + 3 * MILLISECOND) {
        Ok(Some((plan, Frame::Ack { largest_acked, window_size, ack_delay, ack_ranges }))) => {
            assert_eq!(plan.packet_number, 0);
            assert_eq!(largest_acked, 4);
            assert_eq!(window_size, 1024 * 1024);
            assert_eq!(ack_delay, 3000);
            assert_eq!(ack_ranges, vec![(4, 4), (2, 2)]);
        }
        _ => panic!("acknowledgements are pending"),
    }
    assert!(!a.acks_flushed(true));
    assert_eq!(a.pending_acks, 0);
}

#[test]
fn probes_search_for_the_packet_size() {
    let mut a = active(true);
    match a.plan_mtu_probe() {
        Ok(Some((plan, size))) => {
            assert_eq!(size, 5100);
            assert!(!a.mtu_probe_sent(plan.packet_number, size, 5100, SECOND));
        }
        _ => panic!("there is a size to try"),
    }
    assert_eq!(a.state.mtu_probes[&0], 5100);
    assert_eq!(a.state.bytes_in_flight, 0);
    // Later packets got through, the probe did not.
    let _ = a.state.handle_ack(3, 1024, 0, &[], 2 * SECOND, SECOND);
    assert_eq!(a.state.mtu_probe_failures, 1);
    match a.plan_mtu_probe() {
        Ok(Some((_, size))) => assert_eq!(size, 3149),
        _ => panic!("there is a smaller size to try"),
    }
    let mut closing = active(true);
    closing.state.state = ConnectionState::Closing;
    assert!(matches!(closing.plan_mtu_probe(), Ok(None)));
}

#[test]
fn headers_are_measured() {
    assert_eq!(header_len(&[0x41, 0, 0, 0], Some(2)), Ok(4));
    assert_eq!(
        header_len(&[0x43, 0, 0, 0], Some(2)),
        Err(ZtError::InvalidPacket(PacketFault::HeaderTruncated))
    );
    assert_eq!(
        header_len(&[0x40], None),
        Err(ZtError::InvalidPacket(PacketFault::MalformedHeaderOffset))
    );
}

#[test]
fn arriving_packets_are_counted_and_classified() {
    let mut a = actor(true);
    assert!(matches!(a.receive_packet(&[0x80, 1]), Ok(Protection::Initial)));
    assert!(matches!(a.receive_packet(&[0xb0]), Ok(Protection::Bare)));
    assert!(matches!(a.receive_packet(&[]), Ok(Protection::Bare)));
    assert!(matches!(a.receive_packet(&[0x40]), Err(ZtError::Unauthorized)));
    a.state.has_keys = true;
    assert!(matches!(a.receive_packet(&[0x40]), Ok(Protection::Session)));
    assert_eq!(a.state.bytes_received, 5);
}

#[test]
fn packets_are_routed_by_kind_and_state() {
    let mut a = active(true);
    let _ = a.packet_opened(10, ORIGINAL, false, [0; 8], SECOND);
    let data = |pn: u64, phase: bool| header(PacketType::Data, pn, phase);
    assert!(matches!(a.route_packet(&data(10, false), true, 40), Ok(PacketRoute::Ignore)));
    assert!(matches!(
        a.route_packet(&data(11, false), true, 40),
        Ok(PacketRoute::Open { key: KeyChoice::Current })
    ));
    assert!(matches!(
        a.route_packet(&data(11, true), true, 40),
        Ok(PacketRoute::Open { key: KeyChoice::Next })
    ));
    assert!(matches!(
        a.route_packet(&data(9, true), true, 40),
        Ok(PacketRoute::Open { key: KeyChoice::Previous })
    ));
    assert!(matches!(a.route_packet(&data(11, false), true, 15), Ok(PacketRoute::Ignore)));
    a.state.has_keys = false;
    assert!(matches!(a.route_packet(&data(11, false), true, 40), Err(ZtError::Unauthorized)));
    let fresh = actor(true);
    assert!(matches!(
        fresh.route_packet(&header(PacketType::Handshake, 0, false), false, 40),
        Ok(PacketRoute::HandshakeReply)
    ));
    assert!(matches!(
        fresh.route_packet(&header(PacketType::Retry, 0, false), false, 40),
        Ok(PacketRoute::Retry)
    ));
    let mut server = actor(false);
    assert!(matches!(
        server.route_packet(&header(PacketType::Initial, 0, false), false, 40),
        Ok(PacketRoute::Ignore)
    ));
    server.state.handshake_packet = Some(Bytes::from_static(b"hs"));
    assert!(matches!(
        server.route_packet(&header(PacketType::Initial, 0, false), false, 40),
        Ok(PacketRoute::ResendHandshake)
    ));
}

#[test]
fn messages_are_answered() {
    let mut a = active(true);
    let mut timers = Timers::new(&a.state, 15 * SECOND, 0);
    assert_eq!(timers.mtu_probe, 15 * SECOND);
    assert_eq!(timers.rto, 333 * MILLISECOND);
    let limit = 64 * 1024 * 1024;
    let step = a.handle_message(ActorMessage::GetMtu, &mut timers, true, limit, SECOND);
    assert!(matches!(step.reply, Reply::Mtu { mtu: 1200 }));
    assert_eq!(timers.idle, 61 * SECOND);
    let open = ActorMessage::OpenStream { stream_type: StreamType::Bidirectional };
    let step = a.handle_message(open, &mut timers, true, limit, SECOND);
    assert!(matches!(step.reply, Reply::Opened { stream: Ok(2) }));
    let send = ActorMessage::OutgoingData { stream_id: 2, data: Bytes::from_static(b"data") };
    let step = a.handle_message(send, &mut timers, true, limit, SECOND);
    assert!(matches!(step.reply, Reply::Done { result: Ok(()) }));
    assert!(step.pace && step.packets_changed);
    assert_eq!(a.last_active_stream_id, 2);
    let close = ActorMessage::CloseStream { stream_id: 2 };
    let step = a.handle_message(close, &mut timers, true, limit, SECOND);
    assert!(matches!(
        step.send,
        Some(UnackedPayload::StreamClose { stream_id: 2, final_offset: 4 })
    ));
    // The connection outlives its last stream.
    assert_eq!(a.state.state, ConnectionState::Active);
    let step = a.handle_message(ActorMessage::GetStats, &mut timers, true, limit, SECOND);
    match step.reply {
        Reply::Stats { stats } => {
            assert_eq!(stats.mtu, 1200);
            assert_eq!(stats.cwnd, 12_000);
            assert_eq!(stats.cc_algorithm, CongestionControlAlgorithm::Cubic);
            assert_eq!(stats.active_streams, 0);
        }
        _ => panic!("statistics were asked for"),
    }
    let bye = ActorMessage::CloseWithError { error_code: 3, reason: b"bye".to_vec() };
    let step = a.handle_message(bye, &mut timers, true, limit, 2 * SECOND);
    assert!(matches!(step.send, Some(UnackedPayload::Close { error: Some(_) })));
    assert_eq!(a.state.state, ConnectionState::Closing);
    assert_eq!(timers.idle, 2 * SECOND + CLOSE_LINGER);
    assert!(!a.on_idle_timer());
}

#[test]
fn blocked_opens_are_reported_to_the_peer() {
    let mut a = active(true);
    a.state.peer_max_streams = 0;
    let mut timers = Timers::new(&a.state, 15 * SECOND, 0);
    let open = ActorMessage::OpenStream { stream_type: StreamType::Bidirectional };
    let step = a.handle_message(open, &mut timers, true, 1, SECOND);
    assert!(matches!(
        step.reply,
        Reply::Opened { stream: Err(ZtError::TooManyStreams { limit: 0 }) }
    ));
    match step.frame {
        Some((Frame::StreamsBlocked { max_streams }, addr)) => {
            assert_eq!(max_streams, 0);
            assert_eq!(addr, ORIGINAL);
        }
        _ => panic!("the peer has to hear of it"),
    }
}

#[test]
fn reading_opens_the_window_again() {
    let mut a = active(true);
    let mut ctx = context(ORIGINAL);
    ctx.room = false;
    let _ = a.handle_frame(stream_frame(1, 0, b"abc"), &ctx);
    a.pending_acks = 0;
    let mut timers = Timers::new(&a.state, 15 * SECOND, 0);
    let read = ActorMessage::StreamDataRead { stream_id: 1, bytes_read: 3 };
    let step = a.handle_message(read, &mut timers, true, 64 * 1024 * 1024, 2 * SECOND);
    assert!(step.flush_acks);
    assert_eq!(a.pending_acks, 1);
    match step.forwarded {
        Some(f) => assert_eq!(f.chunk.map(|b| b.to_vec()), Some(b"abc".to_vec())),
        None => panic!("there were data"),
    }
}

#[test]
fn timers_follow_the_connection() {
    let mut a = active(true);
    let mut timers = Timers::new(&a.state, 15 * SECOND, 0);
    timers.packet_handled(0, SECOND);
    assert!(timers.ack > SECOND + ACK_DELAY);
    timers.packet_handled(1, SECOND);
    assert_eq!(timers.ack, SECOND + 25 * MILLISECOND);
    a.pending_acks = 1;
    assert!(a.on_ack_timer(&mut timers, 2 * SECOND));
    assert!(timers.ack > 1000 * SECOND);
    timers.paced(Some(7), SECOND);
    assert_eq!(timers.pacing, SECOND + 7);
    a.path_validation_sent_at = Some(SECOND);
    let _ = a.payload_sent(0, UnackedPayload::Close { error: None }, 0, 50, SECOND);
    timers.rearm(&a, true, SECOND);
    assert_eq!(timers.path_validation, SECOND + 2 * 333 * MILLISECOND);
    assert_eq!(timers.rto, SECOND + (333 + 4 * 166) * MILLISECOND);
    a.on_mtu_probe_timer(&mut timers, 5, SECOND);
    assert_eq!(timers.mtu_probe, SECOND + 5);
    assert!(a.on_idle_timer());
    assert!(matches!(a.state.termination, Some(TerminationReason::IdleTimeout)));
    assert!(!a.must_start());
    a.shut_down();
    assert!(a.state.closed);
}

#[test]
fn initial_packets_are_padded() {
    assert_eq!(initial_padding(200), 984);
    assert_eq!(initial_padding(1184), 0);
    assert_eq!(initial_padding(5000), 0);
    let mut a = actor(true);
    let plan = match a.plan_initial(&Some(Bytes::from_static(b"cookie"))) {
        Ok(p) => p,
        Err(_) => panic!("there are numbers left"),
    };
    assert_eq!(plan.packet_number, 0);
    assert_eq!(a.state.cookie.map(|c| c.to_vec()), Some(b"cookie".to_vec()));
}

#[test]
fn the_configuration_has_defaults() {
    let c = ZtConfig::default();
    assert_eq!(c.connect_timeout, 5 * SECOND);
    assert_eq!(c.idle_timeout, 60 * SECOND);
    assert_eq!(c.max_concurrent_streams, 100);
    assert_eq!(c.initial_stream_window, 1024 * 1024);
    assert_eq!(c.initial_max_data, 1024 * 1024);
    assert_eq!(c.mtu_min, 1200);
}

#[test]
fn data_go_into_packets_piece_by_piece() {
    assert_eq!(piece_len(1135, 1200), 1135);
    assert_eq!(piece_len(1136, 1200), 1136);
    assert_eq!(piece_len(1137, 1200), 1136);
    assert_eq!(piece_len(5, 64), 1);
    assert_eq!(piece_len(0, 1200), 0);
}
