//! What an endpoint is told at the start.

use crate::congestion::CongestionControlAlgorithm;
use vstd::prelude::*;

verus! {

/// One second, in the nanoseconds that times are counted in.
pub const SECOND: u64 = 1_000_000_000;

/// One millisecond, in nanoseconds.
pub const MILLISECOND: u64 = 1_000_000;

/// The configuration of an endpoint. Times are in nanoseconds.
#[derive(Debug, Clone, Copy)]
pub struct ZtConfig {
    pub connect_timeout: u64,
    pub idle_timeout: u64,
    pub max_concurrent_streams: u64,
    pub initial_stream_window: u64,
    pub initial_max_data: u64,
    pub mtu_min: usize,
    pub mtu_max: usize,
    pub cc_algorithm: CongestionControlAlgorithm,
}

impl ZtConfig {
    /// The defaults: five seconds to connect, a minute of idleness, a hundred
    /// streams, windows of one mebibyte, packets of 1200 to 9000 bytes, CUBIC.
    pub open spec fn standard() -> ZtConfig {
        ZtConfig {
            connect_timeout: 5_000_000_000,
            idle_timeout: 60_000_000_000,
            max_concurrent_streams: 100,
            initial_stream_window: 1_048_576,
            initial_max_data: 1_048_576,
            mtu_min: 1200,
            mtu_max: 9000,
            cc_algorithm: CongestionControlAlgorithm::Cubic,
        }
    }
}

impl Default for ZtConfig {
    fn default() -> (r: Self)
        ensures
            r == ZtConfig::standard(),
    {
        ZtConfig {
            connect_timeout: 5 * SECOND,
            idle_timeout: 60 * SECOND,
            max_concurrent_streams: 100,
            initial_stream_window: 1024 * 1024,
            initial_max_data: 1024 * 1024,
            mtu_min: 1200,
            mtu_max: 9000,
            cc_algorithm: CongestionControlAlgorithm::Cubic,
        }
    }
}

/// What each side promises the other during the handshake.
#[derive(Debug, Clone, Copy, PartialEq, Eq, Structural)]
pub struct TransportParameters {
    pub max_streams: u64,
    pub initial_stream_window: u64,
    pub initial_max_data: u64,
    pub max_datagram_size: u32,
    pub idle_timeout_ms: u64,
}

/// The defaults: five seconds to connect, sixty of idleness, a hundred streams,
/// one mebibyte for a stream and for the connection, packets of 1200 bytes to
/// start with and 9000 at most, CUBIC.
pub proof fn law_defaults_are_as_documented()
    ensures
        ({
            let c = ZtConfig::standard();
            &&& c.connect_timeout == 5 * SECOND && c.idle_timeout == 60 * SECOND
            &&& c.max_concurrent_streams == 100
            &&& c.initial_stream_window == 1024 * 1024 && c.initial_max_data == 1024 * 1024
            &&& c.mtu_min == 1200 && c.mtu_max == 9000
            &&& c.cc_algorithm is Cubic
        }),
        SECOND == 1000 * MILLISECOND,
        MILLISECOND == 1_000_000,
{
}

} // verus!
