//! Directions of a stream.

use vstd::prelude::*;

verus! {

/// Local capabilities of a multiplexed stream.
#[derive(Debug, Clone, Copy, PartialEq, Eq, Structural)]
pub enum StreamType {
    /// Both local reads and local writes are permitted.
    Bidirectional,
    /// The local endpoint may write; the peer receives it as `UnidirectionalIn`.
    UnidirectionalOut,
    /// The local endpoint may only read. These streams are opened by the peer, not locally.
    UnidirectionalIn,
}

impl StreamType {
    /// The byte that stands for a direction on the wire.
    pub open spec fn wire_byte(self) -> u8 {
        match self {
            StreamType::Bidirectional => 0,
            StreamType::UnidirectionalOut => 1,
            StreamType::UnidirectionalIn => 2,
        }
    }

    /// How the peer sees a stream that is `self` here; nobody sends on a
    /// receive-only stream, so there the peer has no view of it.
    pub open spec fn seen_by_peer(self) -> Option<StreamType> {
        match self {
            StreamType::Bidirectional => Some(StreamType::Bidirectional),
            StreamType::UnidirectionalOut => Some(StreamType::UnidirectionalIn),
            StreamType::UnidirectionalIn => None,
        }
    }

    /// The byte that stands for this direction on the wire.
    pub fn to_wire(self) -> (r: u8)
        ensures
            r == self.wire_byte(),
    {
        match self {
            StreamType::Bidirectional => 0,
            StreamType::UnidirectionalOut => 1,
            StreamType::UnidirectionalIn => 2,
        }
    }

    /// The direction that a wire byte stands for, if any does.
    pub fn from_wire(value: u8) -> (r: Option<StreamType>)
        ensures
            match r {
                Some(t) => t.wire_byte() == value,
                None => forall|t: StreamType| #[trigger] t.wire_byte() != value,
            },
    {
        match value {
            0 => Some(StreamType::Bidirectional),
            1 => Some(StreamType::UnidirectionalOut),
            2 => Some(StreamType::UnidirectionalIn),
            _ => None,
        }
    }

    /// How the peer sees the stream.
    pub fn for_peer(self) -> (r: Option<StreamType>)
        ensures
            r == self.seen_by_peer(),
    {
        match self {
            StreamType::Bidirectional => Some(StreamType::Bidirectional),
            StreamType::UnidirectionalOut => Some(StreamType::UnidirectionalIn),
            StreamType::UnidirectionalIn => None,
        }
    }
}

/// No two directions share a wire byte, so decoding undoes encoding.
pub proof fn law_wire_byte_identifies_direction(a: StreamType, b: StreamType)
    ensures
        a.wire_byte() == b.wire_byte() <==> a == b,
{
}

/// The bytes on the wire are 0, 1 and 2, and what one side only sends on the other
/// only receives on. Nobody sends on a stream that only receives.
pub proof fn law_directions_mirror_each_other(t: StreamType)
    ensures
        t.wire_byte() == 0 <==> t == StreamType::Bidirectional,
        t.wire_byte() == 1 <==> t == StreamType::UnidirectionalOut,
        t.wire_byte() == 2 <==> t == StreamType::UnidirectionalIn,
        t.seen_by_peer() is None <==> t == StreamType::UnidirectionalIn,
        t.seen_by_peer() == Some(StreamType::Bidirectional) <==> t == StreamType::Bidirectional,
        t.seen_by_peer() == Some(StreamType::UnidirectionalIn) <==> t
            == StreamType::UnidirectionalOut,
        t.seen_by_peer() != Some(StreamType::UnidirectionalOut),
{
}

} // verus!
