//! Where an incoming datagram goes.
//!
//! Each receiving task keeps a cache of the connections that it has seen and
//! falls back to the table that all tasks share. A datagram for no connection may
//! start a handshake. The functions decide; the caller looks up, hands over and
//! reports back.

use vstd::prelude::*;

verus! {

/// No handshake is started while so many connections exist.
pub const MAX_ACTIVE_CONNECTIONS: usize = 1000;

/// A task looks after itself again after so many datagrams.
pub const RECEIVE_BURST: u32 = 64;

/// A first packet has at least this size, so that an answer cannot be larger.
pub const MIN_INITIAL_SIZE: usize = 1200;

/// What came of handing a datagram to the connection that the cache names.
#[derive(Debug, Clone, Copy, PartialEq, Eq, Structural)]
pub enum Handover {
    /// The cache names none.
    Unknown,
    /// The connection is gone.
    Gone,
    /// The connection took it.
    Taken,
    /// The connection had no room.
    Refused,
}

/// What to do after the cache was asked.
#[derive(Debug, Clone, Copy, PartialEq, Eq, Structural)]
pub struct CacheStep {
    /// Take the entry out of the cache.
    pub evict: bool,
    /// Ask the shared table.
    pub look_further: bool,
}

/// What the shared table says of a connection.
#[derive(Debug, Clone, Copy, PartialEq, Eq, Structural)]
pub enum TableEntry {
    Unknown,
    Gone,
    Open,
}

/// What to do after the shared table was asked.
#[derive(Debug, Clone, Copy, PartialEq, Eq, Structural)]
pub enum TableStep {
    /// Take the entry out of the table.
    Forget,
    /// Put the entry into the cache and hand the datagram over.
    Forward,
    /// Start a handshake, if one more may run.
    Handshake,
    /// The datagram would start a handshake, but there are too many connections.
    AtCapacity,
    /// The datagram belongs nowhere.
    Drop,
}

/// What came of a look at the socket.
#[derive(Debug, Clone, Copy, PartialEq, Eq, Structural)]
pub enum Reception {
    Datagram,
    WouldBlock,
    Failed,
}

/// What to do after a look at the socket.
#[derive(Debug, Clone, Copy, PartialEq, Eq, Structural)]
pub enum ReceiveStep {
    /// Route the datagram.
    Route,
    /// Wait for a datagram.
    Wait,
    /// Begin a new burst.
    StartOver,
}

/// Whether a datagram can be the first of a connection: it is large enough and
/// has a long header.
pub fn is_initial(data: &[u8]) -> (r: bool)
    ensures
        r <==> data@.len() >= MIN_INITIAL_SIZE && data@[0] & 0x80 != 0,
{
    data.len() >= MIN_INITIAL_SIZE && data[0] & 0x80 != 0
}

/// Decides after the cache was asked. An entry that was of no use is evicted.
pub fn after_cache(outcome: Handover) -> (r: CacheStep)
    ensures
        r.evict <==> outcome is Gone || outcome is Refused,
        r.look_further <==> !(outcome is Taken),
{
    match outcome {
        Handover::Unknown => CacheStep { evict: false, look_further: true },
        Handover::Gone | Handover::Refused => CacheStep { evict: true, look_further: true },
        Handover::Taken => CacheStep { evict: false, look_further: false },
    }
}

/// Decides after the shared table was asked.
pub fn after_table(entry: TableEntry, data: &[u8], active_connections: usize) -> (r: TableStep)
    ensures
        r == match entry {
            TableEntry::Gone => TableStep::Forget,
            TableEntry::Open => TableStep::Forward,
            TableEntry::Unknown => if !(data@.len() >= MIN_INITIAL_SIZE && data@[0] & 0x80 != 0) {
                TableStep::Drop
            } else if active_connections >= MAX_ACTIVE_CONNECTIONS {
                TableStep::AtCapacity
            } else {
                TableStep::Handshake
            },
        },
        r is Handshake ==> data@.len() >= 1200 && data@[0] >= 128 && active_connections < 1000,
        entry is Unknown && data@.len() >= 1200 && data@[0] >= 128 && active_connections < 1000
            ==> r is Handshake,
{
    proof {
        if data@.len() > 0 {
            let b = data@[0];
            assert((b & 0x80 != 0) <==> b >= 128) by (bit_vector);
        }
    }
    match entry {
        TableEntry::Gone => TableStep::Forget,
        TableEntry::Open => TableStep::Forward,
        TableEntry::Unknown => {
            if !is_initial(data) {
                TableStep::Drop
            } else if active_connections >= MAX_ACTIVE_CONNECTIONS {
                TableStep::AtCapacity
            } else {
                TableStep::Handshake
            }
        },
    }
}

/// Decides after a look at the socket, when `processed` datagrams of the burst
/// are routed. Only a task that has routed none waits.
pub fn after_receive(processed: u32, outcome: Reception) -> (r: ReceiveStep)
    ensures
        r == if processed >= RECEIVE_BURST {
            ReceiveStep::StartOver
        } else {
            match outcome {
                Reception::Datagram => ReceiveStep::Route,
                Reception::WouldBlock => if processed == 0 {
                    ReceiveStep::Wait
                } else {
                    ReceiveStep::StartOver
                },
                Reception::Failed => ReceiveStep::StartOver,
            }
        },
{
    if processed >= RECEIVE_BURST {
        return ReceiveStep::StartOver;
    }
    match outcome {
        Reception::Datagram => ReceiveStep::Route,
        Reception::WouldBlock => {
            if processed == 0 {
                ReceiveStep::Wait
            } else {
                ReceiveStep::StartOver
            }
        },
        Reception::Failed => ReceiveStep::StartOver,
    }
}

} // verus!
