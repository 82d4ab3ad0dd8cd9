//! The life of a connection.

use vstd::prelude::*;

verus! {

/// Lifecycle states of a connection.
#[derive(Debug, Clone, Copy, PartialEq, Eq, Structural)]
pub enum ConnectionState {
    Handshaking,
    Active,
    Closing,
    Closed,
}

/// Why a connection or a stream came to an end.
pub enum TerminationReason {
    IdleTimeout,
    StreamReset { error_code: u64 },
    ClosedByPeer { error_code: u64, reason: Vec<u8> },
}

} // verus!
