//! The handshake: offers, retry cookies, signed replies.
//!
//! Both sides hash the same transcript: the protocol version, the connection
//! ids, the key exchange values, the retry cookie and the transport parameters.
//! Each signs what it hashed, so neither version nor parameters can be altered on
//! the way.

use crate::addr::PeerAddr;
use crate::config::{TransportParameters, MILLISECOND};
use crate::connection::ZtConnection;
use crate::connection_state::ConnectionState;
use crate::cookie::{make_retry_cookie, verify_retry_cookie};
use crate::crypto::{
    ed25519_is_key, ed25519_public, ed25519_sign, ed25519_verify, random_bytes, random_secret,
    sha256, x25519, BASE_POINT,
};
use crate::error::{CryptoFault, PacketFault, ZtError};
use crate::frame::{Frame, PacketHeader, PacketType, ParameterSet};
use crate::payload::bytes_as_slice;
use crate::stream_state::StreamState;
use crate::stream_type::StreamType;
use crate::unacked::{HandshakeMessage, UnackedPayload};
use crate::wire::{copy_bytes, put_slice, put_u32, same_bytes};
use bytes::Bytes;
use vstd::prelude::*;

verus! {

broadcast use {vstd::std_specs::hash::group_hash_axioms, vstd::std_specs::vecdeque::group_vec_dequeue_axioms};

/// The protocol version, bound into every transcript.
pub const PROTOCOL_VERSION: u32 = 2;

/// An Initial packet is at least so long, so that an answer does not amplify.
pub const MIN_INITIAL_SIZE: usize = 1200;

/// The size of an authentication tag.
pub const TAG_SIZE: usize = 16;

/// What a client asks for.
pub struct Offer {
    /// The client's connection id.
    pub scid: Vec<u8>,
    /// The id that the client made up for the server.
    pub dcid: Vec<u8>,
    pub packet_number: u64,
    pub message: HandshakeMessage,
    pub cookie: Option<Bytes>,
    pub parameters: ParameterSet,
}

/// The frames of a handshake packet, sorted out.
pub struct Scanned {
    pub message: Option<HandshakeMessage>,
    pub cookie: Option<Bytes>,
    pub parameters: Option<ParameterSet>,
}

/// The bytes of a cookie, none if there is no cookie.
pub open spec fn cookie_bytes(cookie: Option<Bytes>) -> Seq<u8> {
    match cookie {
        Some(c) => crate::payload::contents(c),
        None => Seq::empty(),
    }
}

/// What a client signs.
pub open spec fn offer_transcript(
    scid: Seq<u8>,
    dcid: Seq<u8>,
    public_key: Seq<u8>,
    cookie: Seq<u8>,
    parameters: Seq<u8>,
) -> Seq<u8> {
    crate::wire::be32(PROTOCOL_VERSION) + scid + dcid + public_key + cookie + parameters
}

/// What a server signs in answer to an offer.
pub open spec fn reply_transcript(
    offer: Seq<u8>,
    server_scid: Seq<u8>,
    public_key: Seq<u8>,
    parameters: Seq<u8>,
) -> Seq<u8> {
    offer + server_scid + public_key + parameters
}

/// The last handshake message among the frames.
pub open spec fn last_message(frames: Seq<Frame>) -> Option<HandshakeMessage>
    decreases frames.len(),
{
    if frames.len() == 0 {
        None
    } else {
        match frames.last() {
            Frame::Handshake { message } => Some(message),
            _ => last_message(frames.drop_last()),
        }
    }
}

/// The last cookie among the frames.
pub open spec fn last_cookie(frames: Seq<Frame>) -> Option<Bytes>
    decreases frames.len(),
{
    if frames.len() == 0 {
        None
    } else {
        match frames.last() {
            Frame::Cookie { cookie } => Some(cookie),
            _ => last_cookie(frames.drop_last()),
        }
    }
}

/// The last transport parameters among the frames.
pub open spec fn last_parameters(frames: Seq<Frame>) -> Option<ParameterSet>
    decreases frames.len(),
{
    if frames.len() == 0 {
        None
    } else {
        match frames.last() {
            Frame::Parameters { parameters } => Some(parameters),
            _ => last_parameters(frames.drop_last()),
        }
    }
}

/// How often transport parameters occur among the frames.
pub open spec fn parameter_count(frames: Seq<Frame>) -> nat
    decreases frames.len(),
{
    if frames.len() == 0 {
        0
    } else {
        parameter_count(frames.drop_last()) + if frames.last() is Parameters {
            1nat
        } else {
            0nat
        }
    }
}

/// Sorts out the frames of a handshake packet. Of several messages or cookies the
/// last counts; transport parameters may occur once.
pub fn scan_frames(frames: Vec<Frame>) -> (r: Result<Scanned, ZtError>)
    ensures
        match r {
            Ok(s) => {
                &&& parameter_count(frames@) <= 1
                &&& s.message == last_message(frames@)
                &&& s.cookie == last_cookie(frames@)
                &&& s.parameters == last_parameters(frames@)
            },
            Err(e) => parameter_count(frames@) > 1 && e == ZtError::InvalidPacket(
                PacketFault::DuplicateTransportParameters,
            ),
        },
{
    let mut rest = frames;
    let mut s = Scanned { message: None, cookie: None, parameters: None };
    let mut duplicate = false;
    while rest.len() > 0
        invariant
            last_message(frames@) == if s.message is Some {
                s.message
            } else {
                last_message(rest@)
            },
            last_cookie(frames@) == if s.cookie is Some {
                s.cookie
            } else {
                last_cookie(rest@)
            },
            last_parameters(frames@) == if s.parameters is Some {
                s.parameters
            } else {
                last_parameters(rest@)
            },
            duplicate ==> parameter_count(frames@) > 1,
            !duplicate ==> parameter_count(frames@) == parameter_count(rest@)
                + if s.parameters is Some {
                1nat
            } else {
                0nat
            },
        decreases rest@.len(),
    {
        let ghost before = rest@;
        if let Some(frame) = rest.pop() {
            assert(rest@ =~= before.drop_last());
            match frame {
                Frame::Handshake { message } => {
                    if s.message.is_none() {
                        s.message = Some(message);
                    }
                },
                Frame::Cookie { cookie } => {
                    if s.cookie.is_none() {
                        s.cookie = Some(cookie);
                    }
                },
                Frame::Parameters { parameters } => {
                    if s.parameters.is_none() {
                        s.parameters = Some(parameters);
                    } else {
                        duplicate = true;
                    }
                },
                _ => {},
            }
        }
    }
    if duplicate {
        return Err(ZtError::InvalidPacket(PacketFault::DuplicateTransportParameters));
    }
    Ok(s)
}

/// Whether a packet can be the start of a handshake.
pub open spec fn admissible(packet_len: int, header: PacketHeader, payload_len: int) -> bool {
    &&& packet_len >= MIN_INITIAL_SIZE
    &&& header.is_long
    &&& header.p_type == PacketType::Initial
    &&& header.version == PROTOCOL_VERSION
    &&& payload_len >= TAG_SIZE
}

/// Whether a packet can be the start of a handshake: a long Initial packet of
/// this version, large enough, with room for a tag.
pub fn admit_initial(packet_len: usize, header: &PacketHeader, payload_len: usize) -> (r: bool)
    ensures
        r == admissible(packet_len as int, *header, payload_len as int),
{
    packet_len >= MIN_INITIAL_SIZE && header.is_long && header.p_type == PacketType::Initial
        && header.version == PROTOCOL_VERSION && payload_len >= TAG_SIZE
}

fn hash_offer(
    scid: &[u8],
    dcid: &[u8],
    public_key: &[u8; 32],
    cookie: &Option<Bytes>,
    parameters: &[u8],
) -> (r: Vec<u8>)
    ensures
        r@ == offer_transcript(scid@, dcid@, public_key@, cookie_bytes(*cookie), parameters@),
{
    let mut t: Vec<u8> = Vec::new();
    put_u32(&mut t, PROTOCOL_VERSION);
    put_slice(&mut t, scid);
    put_slice(&mut t, dcid);
    put_slice(&mut t, public_key.as_slice());
    if let Some(c) = cookie {
        put_slice(&mut t, bytes_as_slice(c));
    }
    put_slice(&mut t, parameters);
    assert(t@ =~= offer_transcript(
        scid@,
        dcid@,
        public_key@,
        cookie_bytes(*cookie),
        parameters@,
    ));
    t
}

impl Offer {
    /// The transcript that the offer has to be signed over.
    pub open spec fn transcript(&self) -> Seq<u8> {
        offer_transcript(
            self.scid@,
            self.dcid@,
            self.message.public_key@,
            cookie_bytes(self.cookie),
            self.parameters.encoded@,
        )
    }

    /// What is wrong with the offer, if anything: the key, the hash or the signature.
    pub open spec fn fault(&self) -> Option<ZtError> {
        let hash = crate::crypto::sha256_of(self.transcript());
        if !crate::crypto::ed25519_key_ok(self.message.ed_public_key@) {
            Some(ZtError::Crypto(CryptoFault::InvalidPublicKey))
        } else if hash != self.message.transcript_hash@ {
            Some(ZtError::Crypto(CryptoFault::InvalidTranscriptHash))
        } else if !crate::crypto::ed25519_accepts(
            self.message.ed_public_key@,
            hash,
            self.message.signature@,
        ) {
            Some(ZtError::Crypto(CryptoFault::InvalidSignature))
        } else {
            None
        }
    }

    /// Whether the offer comes with a cookie issued to its sender, still fresh.
    pub open spec fn cookie_ok(&self, cookie_key: Seq<u8>, addr: PeerAddr, now_ms: u64) -> bool {
        self.cookie matches Some(c) && crate::cookie::cookie_accepted(
            cookie_key,
            addr,
            self.scid@,
            crate::payload::contents(c),
            now_ms,
        )
    }

    /// The offer that a packet with this header and these frames makes.
    pub open spec fn of_packet(header: PacketHeader, frames: Seq<Frame>) -> Offer {
        Offer {
            scid: header.scid,
            dcid: header.dcid,
            packet_number: header.packet_number,
            message: last_message(frames)->0,
            cookie: last_cookie(frames),
            parameters: last_parameters(frames)->0,
        }
    }

    /// Why frames make no offer.
    pub open spec fn frames_fault(frames: Seq<Frame>) -> Option<ZtError> {
        if parameter_count(frames) > 1 {
            Some(ZtError::InvalidPacket(PacketFault::DuplicateTransportParameters))
        } else if last_message(frames) is None {
            Some(ZtError::InvalidPacket(PacketFault::NoHandshakeFrame))
        } else if last_parameters(frames) is None {
            Some(ZtError::InvalidPacket(PacketFault::NoTransportParameters))
        } else {
            None
        }
    }

    /// Puts an offer together from what a packet carried.
    pub fn from_frames(header: PacketHeader, frames: Vec<Frame>) -> (r: Result<Offer, ZtError>)
        ensures
            match r {
                Err(e) => Offer::frames_fault(frames@) == Some(e),
                Ok(o) => Offer::frames_fault(frames@) is None && o == Offer::of_packet(
                    header,
                    frames@,
                ),
            },
    {
        let s = match scan_frames(frames) {
            Ok(s) => s,
            Err(e) => {
                return Err(e);
            },
        };
        let Scanned { message, cookie, parameters } = s;
        match message {
            None => Err(ZtError::InvalidPacket(PacketFault::NoHandshakeFrame)),
            Some(message) => match parameters {
                None => Err(ZtError::InvalidPacket(PacketFault::NoTransportParameters)),
                Some(parameters) => Ok(
                    Offer {
                        scid: header.scid,
                        dcid: header.dcid,
                        packet_number: header.packet_number,
                        message,
                        cookie,
                        parameters,
                    },
                ),
            },
        }
    }

    /// Checks key, hash and signature.
    pub fn verify(&self) -> (r: Result<(), ZtError>)
        ensures
            match r {
                Ok(_) => self.fault() is None,
                Err(e) => self.fault() == Some(e),
            },
    {
        if !ed25519_is_key(&self.message.ed_public_key) {
            return Err(ZtError::Crypto(CryptoFault::InvalidPublicKey));
        }
        let transcript = hash_offer(
            self.scid.as_slice(),
            self.dcid.as_slice(),
            &self.message.public_key,
            &self.cookie,
            self.parameters.encoded.as_slice(),
        );
        let expected = sha256(transcript.as_slice());
        if !same_bytes(expected.as_slice(), self.message.transcript_hash.as_slice()) {
            return Err(ZtError::Crypto(CryptoFault::InvalidTranscriptHash));
        }
        if !ed25519_verify(
            &self.message.ed_public_key,
            expected.as_slice(),
            &self.message.signature,
        ) {
            return Err(ZtError::Crypto(CryptoFault::InvalidSignature));
        }
        Ok(())
    }
}

/// What a server does with an offer.
pub enum OfferVerdict {
    /// Ask the client to come back with this cookie.
    Retry([u8; 40]),
    /// Go on with the handshake.
    Verified,
}

/// Judges an offer: without a good cookie the client is sent one, with it the
/// offer is verified.
pub fn judge_offer(cookie_key: &[u8; 32], addr: &PeerAddr, offer: &Offer, now_ms: u64) -> (r: Result<
    OfferVerdict,
    ZtError,
>)
    ensures
        match r {
            Ok(OfferVerdict::Retry(c)) => !offer.cookie_ok(cookie_key@, *addr, now_ms) && c@
                == crate::cookie::cookie_value(cookie_key@, *addr, offer.scid@, now_ms),
            Ok(OfferVerdict::Verified) => offer.cookie_ok(cookie_key@, *addr, now_ms)
                && offer.fault() is None,
            Err(e) => offer.cookie_ok(cookie_key@, *addr, now_ms) && offer.fault() == Some(e),
        },
{
    let is_cookie_valid = match &offer.cookie {
        Some(c) => verify_retry_cookie(
            cookie_key,
            addr,
            offer.scid.as_slice(),
            bytes_as_slice(c),
            now_ms,
        ),
        None => false,
    };
    if !is_cookie_valid {
        return Ok(
            OfferVerdict::Retry(
                make_retry_cookie(cookie_key, addr, offer.scid.as_slice(), now_ms),
            ),
        );
    }
    match offer.verify() {
        Ok(_) => Ok(OfferVerdict::Verified),
        Err(e) => Err(e),
    }
}

/// The header of a Retry packet. It carries a plaintext token and no encrypted
/// payload.
pub fn retry_header(client_scid: &[u8], pn: u64) -> (r: PacketHeader)
    ensures
        r.p_type == PacketType::Retry,
        r.is_long,
        r.version == PROTOCOL_VERSION,
        r.dcid@ == client_scid@,
        r.scid@ == Seq::<u8>::empty(),
        r.packet_number == pn,
        !r.key_phase,
{
    PacketHeader {
        p_type: PacketType::Retry,
        is_long: true,
        version: PROTOCOL_VERSION,
        dcid: copy_bytes(client_scid),
        scid: Vec::new(),
        packet_number: pn,
        key_phase: false,
    }
}

/// Makes and signs a client's offer. A server that sees the same ids, cookie and
/// parameters finds no fault with it.
pub fn make_offer_message(
    secret: &[u8; 32],
    public_key: &[u8; 32],
    scid: &[u8],
    dcid: &[u8],
    cookie: &Option<Bytes>,
    parameters: &[u8],
    alpn: &[u8],
) -> (r: HandshakeMessage)
    ensures
        r.public_key@ == public_key@,
        r.ed_public_key@ == crate::crypto::ed25519_public_of(secret@),
        r.transcript_hash@ == crate::crypto::sha256_of(
            offer_transcript(scid@, dcid@, public_key@, cookie_bytes(*cookie), parameters@),
        ),
        r.signature@ == crate::crypto::ed25519_signature_of(secret@, r.transcript_hash@),
        r.alpn@ == alpn@,
        forall|o: Offer|
            o.message == r && o.scid@ == scid@ && o.dcid@ == dcid@ && cookie_bytes(o.cookie)
                == cookie_bytes(*cookie) && o.parameters.encoded@ == parameters@ ==> (
            #[trigger] o.fault()) is None,
{
    let transcript = hash_offer(scid, dcid, public_key, cookie, parameters);
    sign_transcript(secret, public_key, transcript.as_slice(), alpn)
}

fn sign_transcript(secret: &[u8; 32], public_key: &[u8; 32], transcript: &[u8], alpn: &[u8]) -> (r:
    HandshakeMessage)
    ensures
        r.public_key@ == public_key@,
        r.ed_public_key@ == crate::crypto::ed25519_public_of(secret@),
        r.transcript_hash@ == crate::crypto::sha256_of(transcript@),
        r.signature@ == crate::crypto::ed25519_signature_of(secret@, r.transcript_hash@),
        r.alpn@ == alpn@,
        crate::crypto::ed25519_key_ok(r.ed_public_key@),
        crate::crypto::ed25519_accepts(r.ed_public_key@, r.transcript_hash@, r.signature@),
{
    let hash = sha256(transcript);
    HandshakeMessage {
        public_key: *public_key,
        ed_public_key: ed25519_public(secret),
        transcript_hash: copy_bytes(hash.as_slice()),
        signature: ed25519_sign(secret, hash.as_slice()),
        alpn: copy_bytes(alpn),
    }
}

/// What a client knows of its own side of a handshake.
pub struct ClientSide {
    pub scid: Vec<u8>,
    pub dcid: Vec<u8>,
    pub public_key: [u8; 32],
    pub cookie: Option<Bytes>,
    /// The client's own transport parameters, as the transcript covers them.
    pub parameters: Vec<u8>,
    pub alpn: Vec<u8>,
}

impl ClientSide {
    /// The transcript that a reply has to be signed over.
    pub open spec fn reply_transcript(
        &self,
        server_scid: Seq<u8>,
        message: HandshakeMessage,
        parameters: Seq<u8>,
    ) -> Seq<u8> {
        reply_transcript(
            offer_transcript(
                self.scid@,
                self.dcid@,
                self.public_key@,
                cookie_bytes(self.cookie),
                self.parameters@,
            ),
            server_scid,
            message.public_key@,
            parameters,
        )
    }

    /// What is wrong with a server's reply, if anything: the application
    /// protocol, the hash, the key or the signature.
    pub open spec fn reply_fault(
        &self,
        server_scid: Seq<u8>,
        message: HandshakeMessage,
        parameters: Seq<u8>,
    ) -> Option<ZtError> {
        let hash = crate::crypto::sha256_of(
            self.reply_transcript(server_scid, message, parameters),
        );
        if message.alpn@ != self.alpn@ {
            Some(ZtError::Crypto(CryptoFault::AlpnMismatch))
        } else if hash != message.transcript_hash@ {
            Some(ZtError::Crypto(CryptoFault::InvalidTranscriptHash))
        } else if !crate::crypto::ed25519_key_ok(message.ed_public_key@) {
            Some(ZtError::Crypto(CryptoFault::InvalidEdPk))
        } else if !crate::crypto::ed25519_accepts(
            message.ed_public_key@,
            hash,
            message.signature@,
        ) {
            Some(ZtError::Crypto(CryptoFault::InvalidSig))
        } else {
            None
        }
    }

    /// Checks a server's reply.
    pub fn verify_reply(
        &self,
        server_scid: &[u8],
        message: &HandshakeMessage,
        parameters: &[u8],
    ) -> (r: Result<(), ZtError>)
        ensures
            match r {
                Ok(_) => self.reply_fault(server_scid@, *message, parameters@) is None,
                Err(e) => self.reply_fault(server_scid@, *message, parameters@) == Some(e),
            },
    {
        if !same_bytes(message.alpn.as_slice(), self.alpn.as_slice()) {
            return Err(ZtError::Crypto(CryptoFault::AlpnMismatch));
        }
        let mut t = hash_offer(
            self.scid.as_slice(),
            self.dcid.as_slice(),
            &self.public_key,
            &self.cookie,
            self.parameters.as_slice(),
        );
        put_slice(&mut t, server_scid);
        put_slice(&mut t, message.public_key.as_slice());
        put_slice(&mut t, parameters);
        assert(t@ =~= self.reply_transcript(server_scid@, *message, parameters@));
        let expected = sha256(t.as_slice());
        if !same_bytes(expected.as_slice(), message.transcript_hash.as_slice()) {
            return Err(ZtError::Crypto(CryptoFault::InvalidTranscriptHash));
        }
        if !ed25519_is_key(&message.ed_public_key) {
            return Err(ZtError::Crypto(CryptoFault::InvalidEdPk));
        }
        if !ed25519_verify(&message.ed_public_key, expected.as_slice(), &message.signature) {
            return Err(ZtError::Crypto(CryptoFault::InvalidSig));
        }
        Ok(())
    }
}

/// Makes and signs a server's reply to an offer. The client that made the offer
/// finds no fault with it, if it expects the same application protocol.
pub fn make_reply_message(
    secret: &[u8; 32],
    public_key: &[u8; 32],
    server_scid: &[u8],
    offer: &Offer,
    parameters: &[u8],
    alpn: &[u8],
) -> (r: HandshakeMessage)
    ensures
        r.public_key@ == public_key@,
        r.ed_public_key@ == crate::crypto::ed25519_public_of(secret@),
        r.transcript_hash@ == crate::crypto::sha256_of(
            reply_transcript(offer.transcript(), server_scid@, public_key@, parameters@),
        ),
        r.signature@ == crate::crypto::ed25519_signature_of(secret@, r.transcript_hash@),
        r.alpn@ == alpn@,
        forall|c: ClientSide|
            c.scid@ == offer.scid@ && c.dcid@ == offer.dcid@ && c.public_key@
                == offer.message.public_key@ && cookie_bytes(c.cookie) == cookie_bytes(
                offer.cookie,
            ) && c.parameters@ == offer.parameters.encoded@ && c.alpn@ == alpn@ ==> (
            #[trigger] c.reply_fault(server_scid@, r, parameters@)) is None,
{
    let mut t = hash_offer(
        offer.scid.as_slice(),
        offer.dcid.as_slice(),
        &offer.message.public_key,
        &offer.cookie,
        offer.parameters.encoded.as_slice(),
    );
    put_slice(&mut t, server_scid);
    put_slice(&mut t, public_key.as_slice());
    put_slice(&mut t, parameters);
    assert(t@ =~= reply_transcript(
        offer.transcript(),
        server_scid@,
        public_key@,
        parameters@,
    ));
    sign_transcript(secret, public_key, t.as_slice(), alpn)
}

/// The idle timeout that both sides keep to: the shorter one.
pub open spec fn agreed_idle_timeout(own: u64, parameters: TransportParameters) -> u64 {
    if own <= parameters.idle_timeout_ms * MILLISECOND {
        own
    } else {
        (parameters.idle_timeout_ms * MILLISECOND) as u64
    }
}

fn agree_idle_timeout(own: u64, parameters: &TransportParameters) -> (r: u64)
    ensures
        r == agreed_idle_timeout(own, *parameters),
{
    let theirs: u128 = parameters.idle_timeout_ms as u128 * 1_000_000;
    if own as u128 <= theirs {
        own
    } else {
        theirs as u64
    }
}

/// Whether a client's handshake packet is looked at.
pub enum ReplyAdmission {
    Drop,
    Decrypt,
}

/// Looks at the header of a server's handshake packet.
pub fn admit_reply(header: &PacketHeader, payload_len: usize) -> (r: Result<ReplyAdmission, ZtError>)
    ensures
        match r {
            Err(e) => header.version != PROTOCOL_VERSION && e == ZtError::InvalidPacket(
                PacketFault::UnsupportedVersion,
            ),
            Ok(ReplyAdmission::Drop) => header.version == PROTOCOL_VERSION && payload_len
                < TAG_SIZE,
            Ok(ReplyAdmission::Decrypt) => header.version == PROTOCOL_VERSION && payload_len
                >= TAG_SIZE,
        },
{
    if header.version != PROTOCOL_VERSION {
        return Err(ZtError::InvalidPacket(PacketFault::UnsupportedVersion));
    }
    if payload_len < TAG_SIZE {
        return Ok(ReplyAdmission::Drop);
    }
    Ok(ReplyAdmission::Decrypt)
}

/// Why frames make no reply.
pub open spec fn reply_frames_fault(frames: Seq<Frame>) -> Option<ZtError> {
    if parameter_count(frames) > 1 {
        Some(ZtError::InvalidPacket(PacketFault::DuplicateTransportParameters))
    } else if last_message(frames) is None {
        Some(ZtError::Crypto(CryptoFault::NoHandshake))
    } else if last_parameters(frames) is None {
        Some(ZtError::InvalidPacket(PacketFault::NoTransportParameters))
    } else {
        None
    }
}

/// Picks a server's message and parameters out of what a packet carried.
pub fn reply_from_frames(frames: Vec<Frame>) -> (r: Result<
    (HandshakeMessage, ParameterSet),
    ZtError,
>)
    ensures
        match r {
            Err(e) => reply_frames_fault(frames@) == Some(e),
            Ok((m, p)) => reply_frames_fault(frames@) is None && last_message(frames@) == Some(m)
                && last_parameters(frames@) == Some(p),
        },
{
    let s = match scan_frames(frames) {
        Ok(s) => s,
        Err(e) => {
            return Err(e);
        },
    };
    let Scanned { message, cookie: _, parameters } = s;
    match message {
        None => Err(ZtError::Crypto(CryptoFault::NoHandshake)),
        Some(m) => match parameters {
            None => Err(ZtError::InvalidPacket(PacketFault::NoTransportParameters)),
            Some(p) => Ok((m, p)),
        },
    }
}

impl ZtConnection {
    /// Makes a fresh connection the server's side of an offer: the reply is
    /// queued, stream 0 is open, and the client's parameters apply.
    ///
    /// `own_idle_timeout` and `stream_window` are the server's own settings,
    /// `packet_len` the size of the packet that brought the offer.
    pub fn accept_offer(
        &mut self,
        offer: &Offer,
        reply: HandshakeMessage,
        own_idle_timeout: u64,
        stream_window: u64,
        packet_len: usize,
        now: u64,
    )
        requires
            old(self).wf(),
            stream_window <= isize::MAX,
        ensures
            final(self).wf(),
            *final(self) == (ZtConnection {
                bytes_received: packet_len,
                streams: final(self).streams,
                unpaced_queue: final(self).unpaced_queue,
                replay_window: final(self).replay_window,
                ack_tracker: final(self).ack_tracker,
                largest_acked_received_at: if old(self).ack_tracker.highest_processed is None
                    || offer.packet_number >= old(self).ack_tracker.highest_processed->0 {
                    Some(now)
                } else {
                    old(self).largest_acked_received_at
                },
                state: ConnectionState::Active,
                has_keys: true,
                peer_max_streams: offer.parameters.values.max_streams,
                peer_initial_stream_window: offer.parameters.values.initial_stream_window,
                remote_window: offer.parameters.values.initial_max_data,
                peer_max_datagram_size: offer.parameters.values.max_datagram_size as usize,
                idle_timeout: agreed_idle_timeout(own_idle_timeout, offer.parameters.values),
                ..*old(self)
            }),
            final(self).streams@ == old(self).streams@.insert(0, final(self).streams@[0]),
            final(self).streams@[0].is_fresh(
                StreamType::Bidirectional,
                stream_window,
                offer.parameters.values.initial_stream_window,
                now,
            ),
            final(self).unpaced_queue@ == old(self).unpaced_queue@.push(
                (UnackedPayload::Handshake { message: reply }, 0u32),
            ),
            final(self).replay_window.highest_processed == Some(
                crate::bitmap::raised(
                    old(self).replay_window.highest_processed,
                    offer.packet_number,
                ),
            ),
            final(self).replay_window.processed() == crate::bitmap::slide(
                old(self).replay_window.processed(),
                old(self).replay_window.highest_processed,
                offer.packet_number,
            ),
            final(self).ack_tracker.highest_processed == Some(
                crate::bitmap::raised(old(self).ack_tracker.highest_processed, offer.packet_number),
            ),
            final(self).ack_tracker.received() == crate::bitmap::slide(
                old(self).ack_tracker.received(),
                old(self).ack_tracker.highest_processed,
                offer.packet_number,
            ),
    {
        self.bytes_received = packet_len;
        let parameters = offer.parameters.values;
        self.streams.insert(
            0,
            StreamState::new(
                StreamType::Bidirectional,
                stream_window,
                parameters.initial_stream_window,
                now,
            ),
        );
        self.unpaced_queue.push_back((UnackedPayload::Handshake { message: reply }, 0));
        self.peer_max_streams = parameters.max_streams;
        self.peer_initial_stream_window = parameters.initial_stream_window;
        self.remote_window = parameters.initial_max_data;
        self.peer_max_datagram_size = parameters.max_datagram_size as usize;
        self.idle_timeout = agree_idle_timeout(own_idle_timeout, &parameters);
        self.mark_processed(offer.packet_number, now);
        self.state = ConnectionState::Active;
        self.has_keys = true;
    }

    /// Completes a client's handshake: the server's connection id and parameters
    /// apply, and the Initial packet is no longer outstanding.
    pub fn complete_handshake(
        &mut self,
        server_scid: Vec<u8>,
        addr: PeerAddr,
        parameters: &TransportParameters,
        own_idle_timeout: u64,
        pn: u64,
        now: u64,
    )
        requires
            old(self).wf(),
        ensures
            final(self).wf(),
            *final(self) == (ZtConnection {
                dcid: server_scid,
                has_keys: true,
                addr,
                peer_max_streams: parameters.max_streams,
                peer_initial_stream_window: parameters.initial_stream_window,
                remote_window: parameters.initial_max_data,
                peer_max_datagram_size: parameters.max_datagram_size as usize,
                idle_timeout: agreed_idle_timeout(own_idle_timeout, *parameters),
                state: ConnectionState::Active,
                replay_window: final(self).replay_window,
                ack_tracker: final(self).ack_tracker,
                largest_acked_received_at: if old(self).ack_tracker.highest_processed is None
                    || pn >= old(self).ack_tracker.highest_processed->0 {
                    Some(now)
                } else {
                    old(self).largest_acked_received_at
                },
                unacked_packets: final(self).unacked_packets,
                bytes_in_flight: 0,
                ..*old(self)
            }),
            final(self).unacked_packets@ == Map::<u64, crate::unacked::UnackedPacket>::empty(),
            final(self).unacked_packets.base_pn == 0,
            final(self).replay_window.highest_processed == Some(
                crate::bitmap::raised(old(self).replay_window.highest_processed, pn),
            ),
            final(self).replay_window.processed() == crate::bitmap::slide(
                old(self).replay_window.processed(),
                old(self).replay_window.highest_processed,
                pn,
            ),
            final(self).ack_tracker.highest_processed == Some(
                crate::bitmap::raised(old(self).ack_tracker.highest_processed, pn),
            ),
            final(self).ack_tracker.received() == crate::bitmap::slide(
                old(self).ack_tracker.received(),
                old(self).ack_tracker.highest_processed,
                pn,
            ),
    {
        self.dcid = server_scid;
        self.has_keys = true;
        self.addr = addr;
        self.peer_max_streams = parameters.max_streams;
        self.peer_initial_stream_window = parameters.initial_stream_window;
        self.remote_window = parameters.initial_max_data;
        self.peer_max_datagram_size = parameters.max_datagram_size as usize;
        self.idle_timeout = agree_idle_timeout(own_idle_timeout, parameters);
        self.state = ConnectionState::Active;
        self.mark_processed(pn, now);
        self.unacked_packets.clear();
        self.bytes_in_flight = 0;
    }
}

/// What a server does next with a decrypted Initial packet.
pub enum HandshakeStep {
    /// Send the client a cookie.
    Retry { header: PacketHeader, cookie: [u8; 40] },
    /// Ask the application about the client's key, then answer.
    CheckPeer { offer: Offer },
}

/// Works through a decrypted Initial packet: puts the offer together, asks for
/// the cookie, verifies key, hash and signature.
pub fn handle_handshake(
    cookie_key: &[u8; 32],
    addr: &PeerAddr,
    header: PacketHeader,
    frames: Vec<Frame>,
    now_ms: u64,
) -> (r: Result<HandshakeStep, ZtError>)
    ensures
        ({
            let offer = Offer::of_packet(header, frames@);
            let cookie_ok = offer.cookie_ok(cookie_key@, *addr, now_ms);
            if Offer::frames_fault(frames@) is Some {
                r is Err && r->Err_0 == Offer::frames_fault(frames@)->0
            } else if !cookie_ok {
                r matches Ok(HandshakeStep::Retry { header: h, cookie: c }) && c@
                    == crate::cookie::cookie_value(cookie_key@, *addr, header.scid@, now_ms)
                    && h.p_type == PacketType::Retry && h.is_long && h.version == PROTOCOL_VERSION
                    && h.dcid@ == header.scid@ && h.scid@.len() == 0 && h.packet_number
                    == header.packet_number && !h.key_phase
            } else if offer.fault() is Some {
                r is Err && r->Err_0 == offer.fault()->0
            } else {
                r == Ok::<HandshakeStep, ZtError>(HandshakeStep::CheckPeer { offer })
            }
        }),
        (r matches Ok(HandshakeStep::CheckPeer { offer }) ==> offer.cookie is Some && offer.scid
            == header.scid && crate::crypto::ed25519_accepts(
            offer.message.ed_public_key@,
            offer.message.transcript_hash@,
            offer.message.signature@,
        )),
{
    let offer = match Offer::from_frames(header, frames) {
        Ok(o) => o,
        Err(e) => {
            return Err(e);
        },
    };
    match judge_offer(cookie_key, addr, &offer, now_ms) {
        Ok(OfferVerdict::Retry(cookie)) => Ok(
            HandshakeStep::Retry {
                header: retry_header(offer.scid.as_slice(), offer.packet_number),
                cookie,
            },
        ),
        Ok(OfferVerdict::Verified) => Ok(HandshakeStep::CheckPeer { offer }),
        Err(e) => Err(e),
    }
}

/// What came of looking at a candidate for a connection id.
pub enum CidStep {
    Take,
    TryAgain,
    GiveUp,
}

/// How many candidates are tried.
pub const CID_TRIES: u32 = 10;

/// Decides on the candidate number `tries`, counted from one: a free one is
/// taken, and after ten that were not the search is given up.
pub fn judge_candidate(tries: u32, taken: bool) -> (r: CidStep)
    ensures
        r is Take <==> !taken,
        r is GiveUp <==> taken && tries >= CID_TRIES,
        r is TryAgain <==> taken && tries < CID_TRIES,
        taken && tries < 10 ==> r is TryAgain,
        taken && tries >= 10 ==> r is GiveUp,
{
    if !taken {
        CidStep::Take
    } else if tries >= CID_TRIES {
        CidStep::GiveUp
    } else {
        CidStep::TryAgain
    }
}

/// Draws a candidate for a connection id: eight random bytes.
pub fn draw_connection_id() -> (r: Vec<u8>)
    ensures
        r@.len() == 8,
{
    let bytes = random_bytes();
    copy_bytes(bytes.as_slice())
}

/// A reply whose signature is good, waiting for the application's word on the
/// server's key and for the key agreement.
pub struct PendingHandshake {
    pub server_scid: Vec<u8>,
    pub message: HandshakeMessage,
    pub parameters: TransportParameters,
    pub packet_number: u64,
}

/// Works through a decrypted handshake packet from the server.
pub fn handle_handshake_response(client: &ClientSide, header: PacketHeader, frames: Vec<Frame>) -> (r:
    Result<PendingHandshake, ZtError>)
    ensures
        ({
            let fault = client.reply_fault(
                header.scid@,
                last_message(frames@)->0,
                last_parameters(frames@)->0.encoded@,
            );
            if reply_frames_fault(frames@) is Some {
                r is Err && r->Err_0 == reply_frames_fault(frames@)->0
            } else if fault is Some {
                r is Err && r->Err_0 == fault->0
            } else {
                r == Ok::<PendingHandshake, ZtError>(
                    PendingHandshake {
                        server_scid: header.scid,
                        message: last_message(frames@)->0,
                        parameters: last_parameters(frames@)->0.values,
                        packet_number: header.packet_number,
                    },
                )
            }
        }),
{
    let (message, parameters) = match reply_from_frames(frames) {
        Ok(p) => p,
        Err(e) => {
            return Err(e);
        },
    };
    match client.verify_reply(
        header.scid.as_slice(),
        &message,
        parameters.encoded.as_slice(),
    ) {
        Ok(_) => Ok(
            PendingHandshake {
                server_scid: header.scid,
                message,
                parameters: parameters.values,
                packet_number: header.packet_number,
            },
        ),
        Err(e) => Err(e),
    }
}

/// Draws an identity: a secret signing key and the public key that belongs to it.
pub fn generate_identity() -> (r: ([u8; 32], [u8; 32]))
    ensures
        r.1@ == crate::crypto::ed25519_public_of(r.0@),
        crate::crypto::ed25519_key_ok(r.1@),
{
    let secret = random_secret();
    (secret, ed25519_public(&secret))
}

/// A key pair for one key agreement, which consumes it.
pub struct KeyPair {
    pub secret: [u8; 32],
    pub public: [u8; 32],
}

impl KeyPair {
    /// The two halves belong together.
    pub open spec fn wf(&self) -> bool {
        self.public@ == crate::crypto::x25519_public_of(self.secret@)
    }

    /// The secret that the pair shares with the holder of another public key.
    pub open spec fn shared_with(&self, public: Seq<u8>) -> Seq<u8> {
        crate::crypto::x25519_of(self.secret@, public)
    }
}

/// Draws a fresh key pair.
pub fn generate_keypair() -> (r: KeyPair)
    ensures
        r.wf(),
{
    let secret = random_secret();
    KeyPair { secret, public: x25519(secret, BASE_POINT) }
}

/// Agrees on a secret with the holder of a public key and uses the pair up. The
/// holder, given this pair's public key, comes to the same secret.
pub fn compute_shared_secret(own: KeyPair, peer_public: &[u8; 32]) -> (r: [u8; 32])
    ensures
        r@ == own.shared_with(peer_public@),
        forall|peer: KeyPair|
            own.wf() && #[trigger] peer.wf() && peer.public@ == peer_public@ ==> r@
                == peer.shared_with(own.public@),
{
    x25519(own.secret, *peer_public)
}

/// Settles a handshake whose signature is good: the application has to accept
/// the peer's key, and the key pair must not have been used up. What comes out is
/// the secret shared with the peer.
pub fn settle_peer(peer_allowed: bool, own: Option<KeyPair>, peer_public: &[u8; 32]) -> (r: Result<
    [u8; 32],
    ZtError,
>)
    ensures
        match r {
            Ok(secret) => {
                &&& peer_allowed
                &&& own is Some
                &&& secret@ == own->0.shared_with(peer_public@)
                &&& forall|peer: KeyPair|
                    own->0.wf() && #[trigger] peer.wf() && peer.public@ == peer_public@
                        ==> secret@ == peer.shared_with(own->0.public@)
            },
            Err(e) => e == if !peer_allowed {
                ZtError::Unauthorized
            } else {
                ZtError::Crypto(CryptoFault::SecretConsumed)
            } && !(peer_allowed && own is Some),
        },
{
    if !peer_allowed {
        return Err(ZtError::Unauthorized);
    }
    match own {
        None => Err(ZtError::Crypto(CryptoFault::SecretConsumed)),
        Some(pair) => Ok(compute_shared_secret(pair, peer_public)),
    }
}

/// The transcript binds the transport parameters of both sides: with everything
/// else the same, different parameters give a different transcript.
pub proof fn law_transcript_binds_parameters(
    scid: Seq<u8>,
    dcid: Seq<u8>,
    client_key: Seq<u8>,
    cookie: Seq<u8>,
    client_parameters: (Seq<u8>, Seq<u8>),
    server_scid: Seq<u8>,
    server_key: Seq<u8>,
    server_parameters: (Seq<u8>, Seq<u8>),
)
    ensures
        offer_transcript(scid, dcid, client_key, cookie, client_parameters.0) == offer_transcript(
            scid,
            dcid,
            client_key,
            cookie,
            client_parameters.1,
        ) ==> client_parameters.0 == client_parameters.1,
        ({
            let offer = offer_transcript(scid, dcid, client_key, cookie, client_parameters.0);
            reply_transcript(offer, server_scid, server_key, server_parameters.0)
                == reply_transcript(offer, server_scid, server_key, server_parameters.1)
                ==> server_parameters.0 == server_parameters.1
        }),
{
    let prefix = crate::wire::be32(PROTOCOL_VERSION) + scid + dcid + client_key + cookie;
    lemma_common_prefix(prefix, client_parameters.0, client_parameters.1);
    let offer = offer_transcript(scid, dcid, client_key, cookie, client_parameters.0);
    lemma_common_prefix(
        offer + server_scid + server_key,
        server_parameters.0,
        server_parameters.1,
    );
}

proof fn lemma_common_prefix(prefix: Seq<u8>, a: Seq<u8>, b: Seq<u8>)
    ensures
        prefix + a == prefix + b ==> a == b,
{
    if prefix + a == prefix + b {
        assert((prefix + a).len() == prefix.len() + a.len());
        assert((prefix + b).len() == prefix.len() + b.len());
        assert forall|i: int| 0 <= i < a.len() implies a[i] == b[i] by {
            assert((prefix + a)[prefix.len() + i] == (prefix + b)[prefix.len() + i]);
        }
        assert(a =~= b);
    }
}

/// A client and a server that saw the same exchange hash the same transcript.
pub proof fn law_both_sides_hash_the_same(
    client: ClientSide,
    offer: Offer,
    server_scid: Seq<u8>,
    message: HandshakeMessage,
    parameters: Seq<u8>,
)
    requires
        client.scid@ == offer.scid@,
        client.dcid@ == offer.dcid@,
        client.public_key@ == offer.message.public_key@,
        cookie_bytes(client.cookie) == cookie_bytes(offer.cookie),
        client.parameters@ == offer.parameters.encoded@,
    ensures
        client.reply_transcript(server_scid, message, parameters) == reply_transcript(
            offer.transcript(),
            server_scid,
            message.public_key@,
            parameters,
        ),
{
}

/// What is signed. A client signs the version, 2 in four bytes, both connection
/// ids, its key, the cookie and its parameters, in this order; a server signs the
/// same and then its own connection id, key and parameters.
pub proof fn law_transcripts_cover_the_exchange(offer: Offer, client: ClientSide, server_scid: Seq<u8>, message: HandshakeMessage, parameters: Seq<u8>)
    ensures
        offer.transcript() == seq![0u8, 0, 0, 2] + offer.scid@ + offer.dcid@
            + offer.message.public_key@ + (if offer.cookie is Some {
            crate::payload::contents(offer.cookie->0)
        } else {
            Seq::empty()
        }) + offer.parameters.encoded@,
        client.reply_transcript(server_scid, message, parameters) == seq![0u8, 0, 0, 2]
            + client.scid@ + client.dcid@ + client.public_key@ + (if client.cookie is Some {
            crate::payload::contents(client.cookie->0)
        } else {
            Seq::empty()
        }) + client.parameters@ + server_scid + message.public_key@ + parameters,
{
    crate::wire::law_highest_byte_first(0, 2, 0, 0);
    assert(crate::wire::be32(2) =~= seq![0u8, 0, 0, 2]);
}

/// An offer is good if and only if its key is a key, its hash is that of the
/// transcript, and its signature is good for the hash under that key; the error
/// names the first of these that fails.
pub proof fn law_good_offers_are_signed(o: Offer)
    ensures
        ({
            let key_ok = crate::crypto::ed25519_key_ok(o.message.ed_public_key@);
            let hash = o.message.transcript_hash@;
            let hash_ok = hash == crate::crypto::sha256_of(
                seq![0u8, 0, 0, 2] + o.scid@ + o.dcid@ + o.message.public_key@ + cookie_bytes(
                    o.cookie,
                ) + o.parameters.encoded@,
            );
            let signed = crate::crypto::ed25519_accepts(
                o.message.ed_public_key@,
                hash,
                o.message.signature@,
            );
            &&& o.fault() is None <==> key_ok && hash_ok && signed
            &&& !key_ok ==> o.fault() == Some(ZtError::Crypto(CryptoFault::InvalidPublicKey))
            &&& key_ok && !hash_ok ==> o.fault() == Some(
                ZtError::Crypto(CryptoFault::InvalidTranscriptHash),
            )
            &&& key_ok && hash_ok && !signed ==> o.fault() == Some(
                ZtError::Crypto(CryptoFault::InvalidSignature),
            )
        }),
        o.cookie is None ==> cookie_bytes(o.cookie) == Seq::<u8>::empty(),
        o.cookie matches Some(c) ==> cookie_bytes(o.cookie) == crate::payload::contents(c),
{
    crate::wire::law_highest_byte_first(0, 2, 0, 0);
    assert(crate::wire::be32(2) =~= seq![0u8, 0, 0, 2]);
}

/// A reply is good if and only if it names the application protocol that the
/// client asked for, its hash is that of the whole exchange as the client saw it,
/// its key is a key and its signature is good for the hash; the error names the
/// first of these that fails.
pub proof fn law_good_replies_are_signed(
    c: ClientSide,
    server_scid: Seq<u8>,
    m: HandshakeMessage,
    parameters: Seq<u8>,
)
    ensures
        ({
            let fault = c.reply_fault(server_scid, m, parameters);
            let protocol_ok = m.alpn@ == c.alpn@;
            let hash = m.transcript_hash@;
            let hash_ok = hash == crate::crypto::sha256_of(
                seq![0u8, 0, 0, 2] + c.scid@ + c.dcid@ + c.public_key@ + cookie_bytes(c.cookie)
                    + c.parameters@ + server_scid + m.public_key@ + parameters,
            );
            let key_ok = crate::crypto::ed25519_key_ok(m.ed_public_key@);
            let signed = crate::crypto::ed25519_accepts(m.ed_public_key@, hash, m.signature@);
            &&& fault is None <==> protocol_ok && hash_ok && key_ok && signed
            &&& !protocol_ok ==> fault == Some(ZtError::Crypto(CryptoFault::AlpnMismatch))
            &&& protocol_ok && !hash_ok ==> fault == Some(
                ZtError::Crypto(CryptoFault::InvalidTranscriptHash),
            )
            &&& protocol_ok && hash_ok && !key_ok ==> fault == Some(
                ZtError::Crypto(CryptoFault::InvalidEdPk),
            )
            &&& protocol_ok && hash_ok && key_ok && !signed ==> fault == Some(
                ZtError::Crypto(CryptoFault::InvalidSig),
            )
        }),
{
    crate::wire::law_highest_byte_first(0, 2, 0, 0);
    assert(crate::wire::be32(2) =~= seq![0u8, 0, 0, 2]);
}

/// An offer comes with a good cookie if and only if it has one, of forty bytes,
/// that was issued at most five seconds ago for the address and connection id that
/// it comes from.
pub proof fn law_offers_need_a_fresh_cookie(
    o: Offer,
    cookie_key: Seq<u8>,
    addr: PeerAddr,
    now_ms: u64,
    time: u64,
)
    ensures
        o.cookie is None ==> !o.cookie_ok(cookie_key, addr, now_ms),
        o.cookie matches Some(c) ==> (o.cookie_ok(cookie_key, addr, now_ms)
            ==> crate::payload::contents(c).len() == 40),
        o.cookie matches Some(c) ==> (crate::payload::contents(c).len() == 40
            && crate::payload::contents(c).take(8) == crate::wire::be64(time) ==> (o.cookie_ok(
            cookie_key,
            addr,
            now_ms,
        ) <==> time <= now_ms && now_ms - time <= 5000 && crate::payload::contents(c).skip(8)
            == crate::crypto::hmac_sha256_of(
            cookie_key,
            addr.octets() + crate::wire::be16(addr.port()) + o.scid@ + crate::wire::be64(time),
        ))),
{
    if o.cookie is Some {
        let bytes = crate::payload::contents(o.cookie->0);
        if bytes.len() == 40 && bytes.take(8) == crate::wire::be64(time) {
            crate::cookie::law_cookies_are_good_for_five_seconds(
                cookie_key,
                addr,
                o.scid@,
                time,
                now_ms,
                bytes,
            );
        }
    }
}

/// Of several messages, cookies or parameters among the frames the last one is
/// found, and none only if there is none.
pub proof fn law_the_last_frame_of_a_kind_is_found(frames: Seq<Frame>)
    ensures
        last_message(frames) is None <==> forall|i: int|
            0 <= i < frames.len() ==> !(#[trigger] frames[i] is Handshake),
        last_message(frames) matches Some(m) ==> exists|i: int|
            0 <= i < frames.len() && (#[trigger] frames[i]) == (Frame::Handshake { message: m })
                && forall|j: int| i < j < frames.len() ==> !(#[trigger] frames[j] is Handshake),
        last_cookie(frames) is None <==> forall|i: int|
            0 <= i < frames.len() ==> !(#[trigger] frames[i] is Cookie),
        last_cookie(frames) matches Some(c) ==> exists|i: int|
            0 <= i < frames.len() && (#[trigger] frames[i]) == (Frame::Cookie { cookie: c })
                && forall|j: int| i < j < frames.len() ==> !(#[trigger] frames[j] is Cookie),
        last_parameters(frames) is None <==> forall|i: int|
            0 <= i < frames.len() ==> !(#[trigger] frames[i] is Parameters),
        last_parameters(frames) matches Some(p) ==> exists|i: int|
            0 <= i < frames.len() && (#[trigger] frames[i]) == (Frame::Parameters { parameters: p })
                && forall|j: int| i < j < frames.len() ==> !(#[trigger] frames[j] is Parameters),
        parameter_count(frames) == 0 <==> last_parameters(frames) is None,
    decreases frames.len(),
{
    if frames.len() > 0 {
        let fewer = frames.drop_last();
        let n = frames.len() - 1;
        law_the_last_frame_of_a_kind_is_found(fewer);
        assert(forall|i: int| 0 <= i < n ==> #[trigger] frames[i] == fewer[i]);
        assert(frames[n] == frames.last());
        if !(frames.last() is Handshake) && last_message(fewer) is Some {
            let m = last_message(fewer)->0;
            let i = choose|i: int|
                0 <= i < fewer.len() && (#[trigger] fewer[i]) == (Frame::Handshake { message: m })
                    && forall|j: int| i < j < fewer.len() ==> !(#[trigger] fewer[j] is Handshake);
            assert(frames[i] == fewer[i]);
        }
        if !(frames.last() is Cookie) && last_cookie(fewer) is Some {
            let c = last_cookie(fewer)->0;
            let i = choose|i: int|
                0 <= i < fewer.len() && (#[trigger] fewer[i]) == (Frame::Cookie { cookie: c })
                    && forall|j: int| i < j < fewer.len() ==> !(#[trigger] fewer[j] is Cookie);
            assert(frames[i] == fewer[i]);
        }
        if !(frames.last() is Parameters) && last_parameters(fewer) is Some {
            let p = last_parameters(fewer)->0;
            let i = choose|i: int|
                0 <= i < fewer.len() && (#[trigger] fewer[i]) == (Frame::Parameters {
                    parameters: p,
                }) && forall|j: int| i < j < fewer.len() ==> !(#[trigger] fewer[j] is Parameters);
            assert(frames[i] == fewer[i]);
        }
        if last_message(frames) is None {
            assert forall|i: int| 0 <= i < frames.len() implies !(#[trigger] frames[i] is Handshake) by {
                if i < n {
                    assert(!(fewer[i] is Handshake));
                }
            }
        } else if !(frames.last() is Handshake) {
            assert(last_message(fewer) is Some);
            let i = choose|i: int| 0 <= i < fewer.len() && (#[trigger] fewer[i] is Handshake);
            assert(frames[i] is Handshake);
        }
        if last_cookie(frames) is None {
            assert forall|i: int| 0 <= i < frames.len() implies !(#[trigger] frames[i] is Cookie) by {
                if i < n {
                    assert(!(fewer[i] is Cookie));
                }
            }
        } else if !(frames.last() is Cookie) {
            let i = choose|i: int| 0 <= i < fewer.len() && (#[trigger] fewer[i] is Cookie);
            assert(frames[i] is Cookie);
        }
        if last_parameters(frames) is None {
            assert forall|i: int| 0 <= i < frames.len() implies !(#[trigger] frames[i] is Parameters) by {
                if i < n {
                    assert(!(fewer[i] is Parameters));
                }
            }
        } else if !(frames.last() is Parameters) {
            let i = choose|i: int| 0 <= i < fewer.len() && (#[trigger] fewer[i] is Parameters);
            assert(frames[i] is Parameters);
        }
    }
}

/// Parameters count as given twice if and only if they stand in two places.
pub proof fn law_parameters_are_given_once(frames: Seq<Frame>)
    ensures
        parameter_count(frames) > 1 <==> exists|i: int, j: int|
            0 <= i < j < frames.len() && (#[trigger] frames[i] is Parameters) && (
            #[trigger] frames[j] is Parameters),
    decreases frames.len(),
{
    if frames.len() > 0 {
        let fewer = frames.drop_last();
        let n = frames.len() - 1;
        law_parameters_are_given_once(fewer);
        law_the_last_frame_of_a_kind_is_found(fewer);
        assert(forall|i: int| 0 <= i < n ==> #[trigger] frames[i] == fewer[i]);
        if parameter_count(fewer) > 1 {
            let (i, j) = choose|i: int, j: int|
                0 <= i < j < fewer.len() && (#[trigger] fewer[i] is Parameters) && (
                #[trigger] fewer[j] is Parameters);
            assert(frames[i] is Parameters && frames[j] is Parameters);
        } else if frames.last() is Parameters && parameter_count(fewer) == 1 {
            let i = choose|i: int| 0 <= i < fewer.len() && (#[trigger] fewer[i] is Parameters);
            assert(frames[i] is Parameters && frames[n] is Parameters);
        }
        if exists|i: int, j: int|
            0 <= i < j < frames.len() && (#[trigger] frames[i] is Parameters) && (
            #[trigger] frames[j] is Parameters) {
            let (i, j) = choose|i: int, j: int|
                0 <= i < j < frames.len() && (#[trigger] frames[i] is Parameters) && (
                #[trigger] frames[j] is Parameters);
            assert(fewer[i] is Parameters);
            if j < n {
                assert(fewer[j] is Parameters);
            } else {
                assert(parameter_count(fewer) >= 1);
            }
        }
    }
}

/// Frames make an offer or a reply if and only if there is a message among them
/// and parameters exactly once. What is missing is named: parameters given twice
/// first, then the message, then the parameters.
pub proof fn law_offers_need_message_and_parameters(frames: Seq<Frame>)
    ensures
        ({
            let some = exists|i: int| 0 <= i < frames.len() && (#[trigger] frames[i] is Handshake);
            let given = exists|i: int|
                0 <= i < frames.len() && (#[trigger] frames[i] is Parameters);
            let twice = exists|i: int, j: int|
                0 <= i < j < frames.len() && (#[trigger] frames[i] is Parameters) && (
                #[trigger] frames[j] is Parameters);
            &&& Offer::frames_fault(frames) is None <==> some && given && !twice
            &&& reply_frames_fault(frames) is None <==> some && given && !twice
            &&& twice ==> Offer::frames_fault(frames) == Some(
                ZtError::InvalidPacket(PacketFault::DuplicateTransportParameters),
            ) && reply_frames_fault(frames) == Some(
                ZtError::InvalidPacket(PacketFault::DuplicateTransportParameters),
            )
            &&& !twice && !some ==> Offer::frames_fault(frames) == Some(
                ZtError::InvalidPacket(PacketFault::NoHandshakeFrame),
            ) && reply_frames_fault(frames) == Some(ZtError::Crypto(CryptoFault::NoHandshake))
            &&& !twice && some && !given ==> Offer::frames_fault(frames) == Some(
                ZtError::InvalidPacket(PacketFault::NoTransportParameters),
            ) && reply_frames_fault(frames) == Some(
                ZtError::InvalidPacket(PacketFault::NoTransportParameters),
            )
        }),
{
    law_the_last_frame_of_a_kind_is_found(frames);
    law_parameters_are_given_once(frames);
}

/// An offer is what its packet says: the header's ids and number, and the last
/// message, cookie and parameters.
pub proof fn law_offers_are_read_off_packets(header: PacketHeader, frames: Seq<Frame>)
    ensures
        ({
            let o = Offer::of_packet(header, frames);
            &&& o.scid == header.scid && o.dcid == header.dcid && o.packet_number
                == header.packet_number
            &&& o.cookie == last_cookie(frames)
            &&& last_message(frames) is Some ==> Some(o.message) == last_message(frames)
            &&& last_parameters(frames) is Some ==> Some(o.parameters) == last_parameters(frames)
        }),
{
}

/// Only a long Initial packet of version 2 with 1200 bytes or more, and room for
/// a tag of sixteen, starts a handshake.
pub proof fn law_handshakes_start_with_large_packets(
    packet_len: int,
    header: PacketHeader,
    payload_len: int,
)
    ensures
        admissible(packet_len, header, payload_len) <==> packet_len >= 1200 && header.is_long
            && header.p_type is Initial && header.version == 2 && payload_len >= 16,
{
}

/// Both sides keep to the shorter idle timeout.
pub proof fn law_the_shorter_idle_timeout_holds(own: u64, parameters: TransportParameters)
    ensures
        agreed_idle_timeout(own, parameters) <= own,
        agreed_idle_timeout(own, parameters) <= parameters.idle_timeout_ms * 1_000_000,
        agreed_idle_timeout(own, parameters) == own || agreed_idle_timeout(own, parameters)
            == parameters.idle_timeout_ms * 1_000_000,
{
}

/// A key pair belongs together by X25519 with the base point 9, and shares with
/// another public key what X25519 makes of it with the pair's secret.
pub proof fn law_key_pairs_agree_by_x25519(pair: KeyPair, public: Seq<u8>)
    ensures
        pair.wf() <==> pair.public@ == crate::crypto::x25519_of(
            pair.secret@,
            seq![9u8] + Seq::new(31, |i: int| 0u8),
        ),
        pair.shared_with(public) == crate::crypto::x25519_of(pair.secret@, public),
{
    assert(crate::crypto::BASE_POINT@ =~= seq![9u8] + Seq::new(31, |i: int| 0u8));
}

} // verus!
