//! Packets and frames, as they are before encoding and after decoding.

use crate::config::TransportParameters;
use crate::payload::bytes_clone;
use crate::stream_type::StreamType;
use crate::unacked::{CloseReason, HandshakeMessage, UnackedPayload};
use crate::wire::copy_bytes;
use bytes::Bytes;
use vstd::prelude::*;

verus! {

/// The kinds of packets.
#[derive(Debug, Clone, Copy, PartialEq, Eq, Structural)]
pub enum PacketType {
    Initial,
    Handshake,
    Retry,
    Data,
    MtuProbe,
    Close,
}

/// A packet's header. The packet number is the full one.
pub struct PacketHeader {
    pub p_type: PacketType,
    pub is_long: bool,
    pub version: u32,
    pub dcid: Vec<u8>,
    pub scid: Vec<u8>,
    pub packet_number: u64,
    pub key_phase: bool,
}

/// Transport parameters, and the bytes by which a transcript covers them.
pub struct ParameterSet {
    pub values: TransportParameters,
    pub encoded: Vec<u8>,
}

/// What a packet carries.
pub enum Frame {
    Padding(usize),
    Ack { largest_acked: u64, window_size: u64, ack_delay: u64, ack_ranges: Vec<(u64, u64)> },
    Stream { id: u32, offset: u64, stream_type: StreamType, data: Bytes },
    StreamClose { id: u32, final_offset: u64 },
    StreamReset { id: u32, error_code: u64 },
    MaxStreamData { id: u32, max_data: u64 },
    MaxData { max_data: u64 },
    MaxStreams { max_streams: u64 },
    StreamsBlocked { max_streams: u64 },
    Datagram { data: Bytes },
    PathChallenge { token: [u8; 8] },
    PathResponse { token: [u8; 8] },
    ConnectionClose { error: Option<CloseReason> },
    Handshake { message: HandshakeMessage },
    Cookie { cookie: Bytes },
    Parameters { parameters: ParameterSet },
}

/// Whether two handshake messages say the same.
pub open spec fn same_message(a: HandshakeMessage, b: HandshakeMessage) -> bool {
    &&& a.public_key@ == b.public_key@
    &&& a.ed_public_key@ == b.ed_public_key@
    &&& a.transcript_hash@ == b.transcript_hash@
    &&& a.signature@ == b.signature@
    &&& a.alpn@ == b.alpn@
}

/// Whether two reasons for closing say the same.
pub open spec fn same_reason(a: Option<CloseReason>, b: Option<CloseReason>) -> bool {
    match (a, b) {
        (None, None) => true,
        (Some(x), Some(y)) => x.error_code == y.error_code && x.reason@ == y.reason@,
        _ => false,
    }
}

impl HandshakeMessage {
    /// A copy.
    pub fn copy(&self) -> (r: HandshakeMessage)
        ensures
            same_message(r, *self),
    {
        HandshakeMessage {
            public_key: self.public_key,
            ed_public_key: self.ed_public_key,
            transcript_hash: copy_bytes(self.transcript_hash.as_slice()),
            signature: self.signature,
            alpn: copy_bytes(self.alpn.as_slice()),
        }
    }
}

/// Whether `frame` carries `payload` in a packet whose header takes `header_len`
/// bytes. A probe is padded to its size, less the header and the sixteen bytes of
/// the tag. An Initial is not one frame.
pub open spec fn carries(payload: UnackedPayload, header_len: usize, frame: Option<Frame>) -> bool {
    match (payload, frame) {
        (UnackedPayload::Initial { .. }, None) => true,
        (UnackedPayload::Handshake { message }, Some(Frame::Handshake { message: m })) =>
            same_message(m, message),
        (
            UnackedPayload::Stream { stream_id, offset, stream_type, data },
            Some(Frame::Stream { id, offset: o, stream_type: t, data: d }),
        ) => id == stream_id && o == offset && t == stream_type && crate::payload::contents(d)
            == crate::payload::contents(data),
        (UnackedPayload::Datagram { data }, Some(Frame::Datagram { data: d })) =>
            crate::payload::contents(d) == crate::payload::contents(data),
        (UnackedPayload::MtuProbe { target_size }, Some(Frame::Padding(n))) => n
            == crate::congestion::sat_sub(
            target_size,
            crate::congestion::sat_add(header_len, 16),
        ),
        (
            UnackedPayload::StreamClose { stream_id, final_offset },
            Some(Frame::StreamClose { id, final_offset: f }),
        ) => id == stream_id && f == final_offset,
        (
            UnackedPayload::StreamReset { stream_id, error_code },
            Some(Frame::StreamReset { id, error_code: e }),
        ) => id == stream_id && e == error_code,
        (
            UnackedPayload::MaxStreamData { stream_id, max_data },
            Some(Frame::MaxStreamData { id, max_data: m }),
        ) => id == stream_id && m == max_data,
        (UnackedPayload::Close { error }, Some(Frame::ConnectionClose { error: e })) =>
            same_reason(e, error),
        _ => false,
    }
}

impl UnackedPayload {
    /// The frame that carries the payload in a packet whose header takes
    /// `header_len` bytes.
    pub fn frame(&self, header_len: usize) -> (r: Option<Frame>)
        ensures
            carries(*self, header_len, r),
    {
        match self {
            UnackedPayload::Initial { .. } => None,
            UnackedPayload::Handshake { message } => Some(
                Frame::Handshake { message: message.copy() },
            ),
            UnackedPayload::Stream { stream_id, offset, stream_type, data } => Some(
                Frame::Stream {
                    id: *stream_id,
                    offset: *offset,
                    stream_type: *stream_type,
                    data: bytes_clone(data),
                },
            ),
            UnackedPayload::Datagram { data } => Some(Frame::Datagram { data: bytes_clone(data) }),
            UnackedPayload::MtuProbe { target_size } => Some(
                Frame::Padding(target_size.saturating_sub(header_len.saturating_add(16))),
            ),
            UnackedPayload::StreamClose { stream_id, final_offset } => Some(
                Frame::StreamClose { id: *stream_id, final_offset: *final_offset },
            ),
            UnackedPayload::StreamReset { stream_id, error_code } => Some(
                Frame::StreamReset { id: *stream_id, error_code: *error_code },
            ),
            UnackedPayload::MaxStreamData { stream_id, max_data } => Some(
                Frame::MaxStreamData { id: *stream_id, max_data: *max_data },
            ),
            UnackedPayload::Close { error } => Some(
                Frame::ConnectionClose {
                    error: match error {
                        None => None,
                        Some(e) => Some(
                            CloseReason {
                                error_code: e.error_code,
                                reason: copy_bytes(e.reason.as_slice()),
                            },
                        ),
                    },
                },
            ),
        }
    }
}

/// A frame says what its payload says: the same stream, offset, direction and
/// bytes, the same code, the same reason. A probe fills its packet, with sixteen
/// bytes left to the tag. Only an Initial is no single frame.
pub proof fn law_frames_say_what_payloads_say(
    payload: UnackedPayload,
    header_len: usize,
    frame: Option<Frame>,
)
    requires
        carries(payload, header_len, frame),
    ensures
        frame is None <==> payload is Initial,
        payload matches UnackedPayload::Stream { stream_id, offset, stream_type, data } ==> (
        frame matches Some(Frame::Stream { id, offset: o, stream_type: t, data: d }) && id
            == stream_id && o == offset && t == stream_type && crate::payload::contents(d)
            == crate::payload::contents(data)),
        payload matches UnackedPayload::Datagram { data } ==> (frame matches Some(
            Frame::Datagram { data: d },
        ) && crate::payload::contents(d) == crate::payload::contents(data)),
        payload matches UnackedPayload::MtuProbe { target_size } ==> (frame matches Some(
            Frame::Padding(n),
        ) && (target_size >= header_len + 16 ==> n + header_len + 16 == target_size) && (target_size
            < header_len + 16 ==> n == 0)),
        payload matches UnackedPayload::StreamClose { stream_id, final_offset } ==> frame == Some(
            Frame::StreamClose { id: stream_id, final_offset },
        ),
        payload matches UnackedPayload::StreamReset { stream_id, error_code } ==> frame == Some(
            Frame::StreamReset { id: stream_id, error_code },
        ),
        payload matches UnackedPayload::MaxStreamData { stream_id, max_data } ==> frame == Some(
            Frame::MaxStreamData { id: stream_id, max_data },
        ),
        payload matches UnackedPayload::Close { error: None } ==> frame == Some(
            Frame::ConnectionClose { error: None },
        ),
        payload matches UnackedPayload::Close { error: Some(e) } ==> (frame matches Some(
            Frame::ConnectionClose { error: Some(f) },
        ) && f.error_code == e.error_code && f.reason@ == e.reason@),
        payload matches UnackedPayload::Handshake { message } ==> (frame matches Some(
            Frame::Handshake { message: m },
        ) && m.public_key@ == message.public_key@ && m.ed_public_key@ == message.ed_public_key@
            && m.transcript_hash@ == message.transcript_hash@ && m.signature@ == message.signature@
            && m.alpn@ == message.alpn@),
{
}

} // verus!
