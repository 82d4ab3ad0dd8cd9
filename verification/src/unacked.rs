//! What a sent packet carried, kept until it is acknowledged.

use crate::payload::bytes_len;
use crate::stream_type::StreamType;
use bytes::Bytes;
use vstd::prelude::*;

verus! {

/// A signed key exchange.
pub struct HandshakeMessage {
    pub public_key: [u8; 32],
    pub ed_public_key: [u8; 32],
    pub transcript_hash: Vec<u8>,
    pub signature: [u8; 64],
    pub alpn: Vec<u8>,
}

/// Why a connection is closed, as told to the peer.
pub struct CloseReason {
    pub error_code: u64,
    pub reason: Vec<u8>,
}

/// Describes the content of an unacknowledged packet.
pub enum UnackedPayload {
    Initial { cookie: Option<Bytes> },
    Handshake { message: HandshakeMessage },
    Stream { stream_id: u32, offset: u64, stream_type: StreamType, data: Bytes },
    Datagram { data: Bytes },
    MtuProbe { target_size: usize },
    StreamClose { stream_id: u32, final_offset: u64 },
    StreamReset { stream_id: u32, error_code: u64 },
    MaxStreamData { stream_id: u32, max_data: u64 },
    Close { error: Option<CloseReason> },
}

impl UnackedPayload {
    /// How many bytes of application data or padding the payload stands for.
    pub open spec fn size(&self) -> nat {
        match self {
            UnackedPayload::Stream { data, .. } => crate::payload::contents(*data).len(),
            UnackedPayload::Datagram { data } => crate::payload::contents(*data).len(),
            UnackedPayload::MtuProbe { target_size } => *target_size as nat,
            _ => 0,
        }
    }

    /// How many bytes of application data or padding the payload stands for.
    pub fn len(&self) -> (r: usize)
        ensures
            r == self.size(),
    {
        match self {
            UnackedPayload::Stream { data, .. } => bytes_len(data),
            UnackedPayload::Datagram { data } => bytes_len(data),
            UnackedPayload::MtuProbe { target_size } => *target_size,
            _ => 0,
        }
    }
}

/// A packet that has been sent but not yet acknowledged. Times are nanoseconds
/// on a monotonic clock.
pub struct UnackedPacket {
    pub payload: UnackedPayload,
    pub sent_at: u64,
    pub retries: u32,
    pub is_mtu_probe: bool,
    pub sent_bytes: usize,
}

/// Stream data, datagrams and probes have a size; nothing else has.
pub proof fn law_payloads_have_the_size_of_their_data(p: UnackedPayload)
    ensures
        p matches UnackedPayload::Stream { data, .. } ==> p.size() == crate::payload::contents(
            data,
        ).len(),
        p matches UnackedPayload::Datagram { data } ==> p.size() == crate::payload::contents(
            data,
        ).len(),
        p matches UnackedPayload::MtuProbe { target_size } ==> p.size() == target_size,
        !(p is Stream) && !(p is Datagram) && !(p is MtuProbe) ==> p.size() == 0,
{
}

} // verus!
