//! Addresses of peers.

use crate::wire::{put_u128, put_u16, put_u32};
use vstd::prelude::*;

verus! {

/// A peer's UDP address. The IP address is the number that its octets spell in
/// network byte order.
#[derive(Debug, Clone, Copy, PartialEq, Eq, Structural)]
pub enum PeerAddr {
    V4 { ip4: u32, port4: u16 },
    V6 { ip6: u128, port6: u16, flowinfo: u32, scope_id: u32 },
}

impl PeerAddr {
    /// The octets of the IP address.
    pub open spec fn octets(&self) -> Seq<u8> {
        match self {
            PeerAddr::V4 { ip4, .. } => crate::wire::be32(*ip4),
            PeerAddr::V6 { ip6, .. } => crate::wire::be128(*ip6),
        }
    }

    /// The port.
    pub open spec fn port(&self) -> u16 {
        match self {
            PeerAddr::V4 { port4, .. } => *port4,
            PeerAddr::V6 { port6, .. } => *port6,
        }
    }

    /// Appends the octets of the IP address and the port.
    pub fn put(&self, out: &mut Vec<u8>)
        ensures
            final(out)@ == old(out)@ + self.octets() + crate::wire::be16(self.port()),
    {
        match self {
            PeerAddr::V4 { ip4, port4 } => {
                put_u32(out, *ip4);
                put_u16(out, *port4);
            },
            PeerAddr::V6 { ip6, port6, .. } => {
                put_u128(out, *ip6);
                put_u16(out, *port6);
            },
        }
    }
}

/// An address is told by its octets and its port, four octets for IPv4 and
/// sixteen for IPv6, highest first; nothing else of it counts.
pub proof fn law_octets_spell_the_address(addr: PeerAddr)
    ensures
        addr matches PeerAddr::V4 { ip4, port4 } ==> addr.port() == port4 && addr.octets().len() == 4
            && addr.octets()[0] == ip4 / 16_777_216 && addr.octets()[3] == ip4 % 256
            && addr.octets() == crate::wire::be32(ip4),
        addr matches PeerAddr::V6 { ip6, port6, .. } ==> addr.port() == port6 && addr.octets().len()
            == 16 && addr.octets() == crate::wire::be128(ip6),
{
    match addr {
        PeerAddr::V4 { ip4, .. } => {
            crate::wire::law_highest_byte_first(0, ip4, 0, 0);
        },
        PeerAddr::V6 { ip6, .. } => {
            crate::wire::law_highest_byte_first(0, 0, 0, ip6);
        },
    }
}

} // verus!
