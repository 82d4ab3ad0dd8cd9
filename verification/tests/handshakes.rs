//! Key exchanges between a client and a server.

use bytes::Bytes;
use zetta_transport::addr::PeerAddr;
use zetta_transport::config::{TransportParameters, MILLISECOND, SECOND};
use zetta_transport::connection::ZtConnection;
use zetta_transport::connection_state::ConnectionState;
use zetta_transport::cookie::make_retry_cookie;
use zetta_transport::error::{CryptoFault, IoFault, PacketFault, ZtError};
use zetta_transport::frame::{Frame, PacketHeader, PacketType, ParameterSet};
use zetta_transport::handshake::{
    admit_initial, admit_reply, compute_shared_secret, draw_connection_id,
    generate_identity, generate_keypair,
    handle_handshake, handle_handshake_response, judge_candidate, make_offer_message,
    make_reply_message, settle_peer, CidStep, ClientSide, HandshakeStep, KeyPair, Offer,
    ReplyAdmission, PROTOCOL_VERSION,
};
use zetta_transport::stream_type::StreamType;
use zetta_transport::unacked::{HandshakeMessage, UnackedPayload};

const CLIENT_SECRET: [u8; 32] = [11; 32];
const SERVER_SECRET: [u8; 32] = [22; 32];
const CLIENT_KEY: [u8; 32] = [33; 32];
const SERVER_KEY: [u8; 32] = [44; 32];
const COOKIE_KEY: [u8; 32] = [55; 32];
const NOW: u64 = 1_000_000;

fn addr() -> PeerAddr {
    PeerAddr::V4 { ip4: 0x0a000001, port4: 5000 }
}

fn parameters() -> TransportParameters {
    TransportParameters {
        max_streams: 7,
        initial_stream_window: 65_536,
        initial_max_data: 131_072,
        max_datagram_size: 1000,
        idle_timeout_ms: 30_000,
    }
}

fn parameter_set() -> ParameterSet {
    ParameterSet { values: parameters(), encoded: vec![1, 2, 3] }
}

fn header(p_type: PacketType, scid: Vec<u8>, dcid: Vec<u8>) -> PacketHeader {
    PacketHeader {
        p_type,
        is_long: true,
        version: PROTOCOL_VERSION,
        dcid,
        scid,
        packet_number: 0,
        key_phase: false,
    }
}

fn offer_message(cookie: &Option<Bytes>) -> HandshakeMessage {
    make_offer_message(
        &CLIENT_SECRET,
        &CLIENT_KEY,
        &[1; 8],
        &[2; 8],
        cookie,
        &[1, 2, 3],
        b"zetta",
    )
}

fn offer_frames(message: HandshakeMessage, cookie: Option<Bytes>) -> Vec<Frame> {
    let mut frames = vec![
        Frame::Handshake { message },
        Frame::Parameters { parameters: parameter_set() },
    ];
    if let Some(c) = cookie {
        frames.push(Frame::Cookie { cookie: c });
    }
    frames.push(Frame::Padding(100));
    frames
}

fn good_cookie() -> Bytes {
    Bytes::from(make_retry_cookie(&COOKIE_KEY, &addr(), &[1; 8], NOW).to_vec())
}

fn accepted_offer() -> Offer {
    let cookie = Some(good_cookie());
    let frames = offer_frames(offer_message(&cookie), cookie);
    let h = header(PacketType::Initial, vec![1; 8], vec![2; 8]);
    match handle_handshake(&COOKIE_KEY, &addr(), h, frames, NOW + 10) {
        Ok(HandshakeStep::CheckPeer { offer }) => offer,
        _ => panic!("an honest offer has to go through"),
    }
}

fn client_side() -> ClientSide {
    ClientSide {
        scid: vec![1; 8],
        dcid: vec![2; 8],
        public_key: CLIENT_KEY,
        cookie: Some(good_cookie()),
        parameters: vec![1, 2, 3],
        alpn: b"zetta".to_vec(),
    }
}

fn reply(offer: &Offer) -> HandshakeMessage {
    make_reply_message(&SERVER_SECRET, &SERVER_KEY, &[9; 8], offer, &[4, 5], b"zetta")
}

fn reply_frames(message: HandshakeMessage) -> Vec<Frame> {
    vec![
        Frame::Handshake { message },
        Frame::Parameters {
            parameters: ParameterSet { values: parameters(), encoded: vec![4, 5] },
        },
    ]
}

#[test]
fn a_client_without_a_cookie_is_sent_one() {
    let h = header(PacketType::Initial, vec![1; 8], vec![2; 8]);
    let frames = offer_frames(offer_message(&None), None);
    match handle_handshake(&COOKIE_KEY, &addr(), h, frames, NOW) {
        Ok(HandshakeStep::Retry { header, cookie }) => {
            assert_eq!(header.p_type, PacketType::Retry);
            assert!(header.is_long);
            assert_eq!(header.version, 2);
            assert_eq!(header.dcid, vec![1; 8]);
            assert!(header.scid.is_empty());
            assert!(!header.key_phase);
            assert_eq!(cookie.to_vec(), good_cookie().to_vec());
        }
        _ => panic!("the address is not proved"),
    }
}

#[test]
fn an_honest_handshake_completes() {
    let offer = accepted_offer();
    let message = reply(&offer);
    let h = header(PacketType::Handshake, vec![9; 8], vec![1; 8]);
    match handle_handshake_response(&client_side(), h, reply_frames(message)) {
        Ok(pending) => {
            assert_eq!(pending.server_scid, vec![9; 8]);
            assert_eq!(pending.message.public_key, SERVER_KEY);
            assert_eq!(pending.parameters.max_streams, 7);
        }
        Err(_) => panic!("an honest reply has to go through"),
    }
}

#[test]
fn a_bad_key_or_signature_of_the_server_is_told_apart() {
    let offer = accepted_offer();
    let judge = |message: HandshakeMessage| {
        let h = header(PacketType::Handshake, vec![9; 8], vec![1; 8]);
        match handle_handshake_response(&client_side(), h, reply_frames(message)) {
            Ok(_) => None,
            Err(e) => Some(e),
        }
    };
    let mut message = reply(&offer);
    message.signature[5] ^= 1;
    assert_eq!(judge(message), Some(ZtError::Crypto(CryptoFault::InvalidSig)));
    let mut message = reply(&offer);
    message.ed_public_key = [2; 32];
    assert_eq!(judge(message), Some(ZtError::Crypto(CryptoFault::InvalidEdPk)));
}

#[test]
fn both_sides_come_to_the_same_secret() {
    let client = generate_keypair();
    let server = generate_keypair();
    assert_ne!(client.public, server.public);
    assert_ne!(client.public, client.secret);
    let (client_public, server_public) = (client.public, server.public);
    let theirs = compute_shared_secret(server, &client_public);
    assert_eq!(settle_peer(true, Some(client), &server_public), Ok(theirs));
    assert_ne!(theirs, client_public);
    assert_eq!(
        settle_peer(false, Some(generate_keypair()), &server_public),
        Err(ZtError::Unauthorized)
    );
    assert_eq!(settle_peer(false, None, &server_public), Err(ZtError::Unauthorized));
    assert_eq!(
        settle_peer(true, None, &server_public),
        Err(ZtError::Crypto(CryptoFault::SecretConsumed))
    );
}

#[test]
fn an_identity_signs_for_itself() {
    let (secret, public) = generate_identity();
    assert_ne!(secret, public);
    assert_ne!(generate_identity().0, secret);
    let message = make_offer_message(&secret, &CLIENT_KEY, &[1; 8], &[2; 8], &None, &[1], b"zetta");
    assert_eq!(message.ed_public_key, public);
}

#[test]
fn the_key_agreement_is_that_of_curve25519() {
    let secret: [u8; 32] = [
        0xa5, 0x46, 0xe3, 0x6b, 0xf0, 0x52, 0x7c, 0x9d, 0x3b, 0x16, 0x15, 0x4b, 0x82, 0x46, 0x5e,
        0xdd, 0x62, 0x14, 0x4c, 0x0a, 0xc1, 0xfc, 0x5a, 0x18, 0x50, 0x6a, 0x22, 0x44, 0xba, 0x44,
        0x9a, 0xc4,
    ];
    let point: [u8; 32] = [
        0xe6, 0xdb, 0x68, 0x67, 0x58, 0x30, 0x30, 0xdb, 0x35, 0x94, 0xc1, 0xa4, 0x24, 0xb1, 0x5f,
        0x7c, 0x72, 0x66, 0x24, 0xec, 0x26, 0xb3, 0x35, 0x3b, 0x10, 0xa9, 0x03, 0xa6, 0xd0, 0xab,
        0x1c, 0x4c,
    ];
    let expected: [u8; 32] = [
        0xc3, 0xda, 0x55, 0x37, 0x9d, 0xe9, 0xc6, 0x90, 0x8e, 0x94, 0xea, 0x4d, 0xf2, 0x8d, 0x08,
        0x4f, 0x32, 0xec, 0xcf, 0x03, 0x49, 0x1c, 0x71, 0xf7, 0x54, 0xb4, 0x07, 0x55, 0x77, 0xa2,
        0x85, 0x52,
    ];
    let pair = KeyPair { secret, public: [0; 32] };
    assert_eq!(compute_shared_secret(pair, &point), expected);
}

#[test]
fn signatures_differ_by_key_and_transcript() {
    let offer = accepted_offer();
    let a = reply(&offer);
    let b = make_reply_message(&CLIENT_SECRET, &SERVER_KEY, &[9; 8], &offer, &[4, 5], b"zetta");
    let c = make_reply_message(&SERVER_SECRET, &SERVER_KEY, &[8; 8], &offer, &[4, 5], b"zetta");
    assert_ne!(a.ed_public_key, b.ed_public_key);
    assert_ne!(a.signature, b.signature);
    assert_eq!(a.ed_public_key, c.ed_public_key);
    assert_ne!(a.transcript_hash, c.transcript_hash);
    assert_eq!(a.transcript_hash.len(), 32);
}

#[test]
fn a_tampered_offer_is_refused() {
    let cookie = Some(good_cookie());
    let h = || header(PacketType::Initial, vec![1; 8], vec![2; 8]);
    let judge = |frames: Vec<Frame>| match handle_handshake(&COOKIE_KEY, &addr(), h(), frames, NOW) {
        Ok(_) => None,
        Err(e) => Some(e),
    };
    // Parameters that were not signed.
    let frames = vec![
        Frame::Handshake { message: offer_message(&cookie) },
        Frame::Cookie { cookie: good_cookie() },
        Frame::Parameters {
            parameters: ParameterSet { values: parameters(), encoded: vec![1, 2, 4] },
        },
    ];
    assert_eq!(judge(frames), Some(ZtError::Crypto(CryptoFault::InvalidTranscriptHash)));
    // A signature by somebody else.
    let mut message = offer_message(&cookie);
    message.signature[5] ^= 1;
    assert_eq!(
        judge(offer_frames(message, Some(good_cookie()))),
        Some(ZtError::Crypto(CryptoFault::InvalidSignature))
    );
    // Bytes that are no key: a point that is not on the curve.
    let mut message = offer_message(&cookie);
    message.ed_public_key = [2; 32];
    assert_eq!(
        judge(offer_frames(message, Some(good_cookie()))),
        Some(ZtError::Crypto(CryptoFault::InvalidPublicKey))
    );
    // No message at all.
    assert_eq!(
        judge(vec![Frame::Cookie { cookie: good_cookie() }]),
        Some(ZtError::InvalidPacket(PacketFault::NoHandshakeFrame))
    );
    // Parameters twice.
    let mut frames = offer_frames(offer_message(&cookie), Some(good_cookie()));
    frames.push(Frame::Parameters { parameters: parameter_set() });
    assert_eq!(
        judge(frames),
        Some(ZtError::InvalidPacket(PacketFault::DuplicateTransportParameters))
    );
}

#[test]
fn a_tampered_reply_is_refused() {
    let offer = accepted_offer();
    let judge = |client: ClientSide, frames: Vec<Frame>| {
        let h = header(PacketType::Handshake, vec![9; 8], vec![1; 8]);
        match handle_handshake_response(&client, h, frames) {
            Ok(_) => None,
            Err(e) => Some(e),
        }
    };
    let mut client = client_side();
    client.alpn = b"other".to_vec();
    assert_eq!(
        judge(client, reply_frames(reply(&offer))),
        Some(ZtError::Crypto(CryptoFault::AlpnMismatch))
    );
    let mut client = client_side();
    client.scid = vec![3; 8];
    assert_eq!(
        judge(client, reply_frames(reply(&offer))),
        Some(ZtError::Crypto(CryptoFault::InvalidTranscriptHash))
    );
    assert_eq!(
        judge(client_side(), vec![]),
        Some(ZtError::Crypto(CryptoFault::NoHandshake))
    );
    assert_eq!(
        judge(client_side(), vec![Frame::Handshake { message: reply(&offer) }]),
        Some(ZtError::InvalidPacket(PacketFault::NoTransportParameters))
    );
}

#[test]
fn headers_are_checked_before_decryption() {
    let good = header(PacketType::Initial, vec![1; 8], vec![2; 8]);
    assert!(admit_initial(1200, &good, 1100));
    assert!(!admit_initial(1199, &good, 1100));
    assert!(!admit_initial(1200, &good, 15));
    let mut old = header(PacketType::Initial, vec![1; 8], vec![2; 8]);
    old.version = 1;
    assert!(!admit_initial(1200, &old, 1100));
    assert_eq!(
        admit_reply(&old, 100).err(),
        Some(ZtError::InvalidPacket(PacketFault::UnsupportedVersion))
    );
    assert!(matches!(admit_reply(&good, 15), Ok(ReplyAdmission::Drop)));
    assert!(matches!(admit_reply(&good, 16), Ok(ReplyAdmission::Decrypt)));
}

#[test]
fn both_sides_apply_what_was_agreed() {
    let offer = accepted_offer();
    let mut server = ZtConnection::new(addr(), vec![9; 8], vec![1; 8]);
    server.accept_offer(&offer, reply(&offer), 60 * SECOND, 1 << 20, 1200, SECOND);
    assert_eq!(server.state, ConnectionState::Active);
    assert!(server.has_keys);
    assert_eq!(server.bytes_received, 1200);
    assert_eq!(server.peer_max_streams, 7);
    assert_eq!(server.remote_window, 131_072);
    assert_eq!(server.idle_timeout, 30_000 * MILLISECOND);
    assert_eq!(server.streams[&0].tx_window, 65_536);
    assert_eq!(server.streams[&0].stream_type, StreamType::Bidirectional);
    assert!(matches!(server.unpaced_queue[0], (UnackedPayload::Handshake { .. }, 0)));
    assert!(server.is_replay(0));

    let mut client = ZtConnection::new(addr(), vec![1; 8], vec![2; 8]);
    client.bytes_in_flight = 1200;
    client.complete_handshake(vec![9; 8], addr(), &parameters(), 10 * SECOND, 0, SECOND);
    assert_eq!(client.dcid, vec![9; 8]);
    assert_eq!(client.state, ConnectionState::Active);
    assert_eq!(client.bytes_in_flight, 0);
    assert_eq!(client.idle_timeout, 10 * SECOND);
    assert_eq!(client.peer_max_datagram_size, 1000);
}

#[test]
fn connection_ids_are_drawn_until_one_is_free() {
    let a = draw_connection_id();
    let b = draw_connection_id();
    assert_eq!(a.len(), 8);
    assert_ne!(a, b);
    assert!(matches!(judge_candidate(1, false), CidStep::Take));
    assert!(matches!(judge_candidate(9, true), CidStep::TryAgain));
    assert!(matches!(judge_candidate(10, true), CidStep::GiveUp));
}

#[test]
fn directions_on_the_wire() {
    for t in [
        StreamType::Bidirectional,
        StreamType::UnidirectionalOut,
        StreamType::UnidirectionalIn,
    ] {
        assert_eq!(StreamType::from_wire(t.to_wire()), Some(t));
    }
    assert_eq!(StreamType::from_wire(3), None);
    assert_eq!(
        StreamType::UnidirectionalOut.for_peer(),
        Some(StreamType::UnidirectionalIn)
    );
    assert_eq!(StreamType::UnidirectionalIn.for_peer(), None);
}

#[test]
fn faults_have_words() {
    assert_eq!(CryptoFault::AlpnMismatch.text(), "ALPN negotiation failed");
    assert_eq!(CryptoFault::DecryptionFailed.text(), "Decryption failed");
    assert_eq!(PacketFault::UnsupportedVersion.text(), "Unsupported version");
    assert_eq!(
        PacketFault::DatagramTooLarge { limit: 9 }.text(),
        "Datagram payload exceeds current path limit (9 bytes)"
    );
    assert_eq!(
        PacketFault::DatagramTooLarge { limit: 10_203 }.text(),
        "Datagram payload exceeds current path limit (10203 bytes)"
    );
    assert_eq!(CryptoFault::InvalidPublicKey.text(), "Invalid Ed25519 Public Key");
    assert_eq!(CryptoFault::InvalidEdPk.text(), "Invalid EdPK");
    assert_eq!(CryptoFault::InvalidSig.text(), "Invalid Sig");
    assert_eq!(IoFault::ApplicationGone.text(), "Application dropped connection handle");
    assert_eq!(IoFault::WouldBlock.text(), "Window or CWND full");
}
