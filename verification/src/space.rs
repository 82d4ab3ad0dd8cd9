//! Packet numbers of one encryption level.

use crate::error::ZtError;
use crate::replay_window::ReplayWindow;
use crate::unacked_window::UnackedWindow;
use vstd::prelude::*;

verus! {

/// The packet numbers of one encryption level.
pub struct PacketSpace {
    pub next_packet_number: u64,
    pub unacked_packets: UnackedWindow,
    pub replay_window: ReplayWindow,
}

impl PacketSpace {
    /// The parts are sound.
    pub open spec fn wf(&self) -> bool {
        self.unacked_packets.wf() && self.replay_window.wf()
    }

    /// Nothing was sent or received.
    pub open spec fn is_fresh(&self) -> bool {
        &&& self.wf()
        &&& self.next_packet_number == 0
        &&& self.unacked_packets@ == Map::<u64, crate::unacked::UnackedPacket>::empty()
        &&& self.unacked_packets.base_pn == 0
        &&& self.replay_window.highest_processed is None
        &&& self.replay_window.processed() == Set::<u64>::empty()
    }

    /// A space in which nothing was sent or received.
    pub fn new() -> (r: Self)
        ensures
            r.is_fresh(),
    {
        PacketSpace {
            next_packet_number: 0,
            unacked_packets: UnackedWindow::new(),
            replay_window: ReplayWindow::new(),
        }
    }

    /// The next packet number; the last one is never given out.
    pub fn get_next_packet_number(&mut self) -> (r: Result<u64, ZtError>)
        ensures
            *final(self) == (PacketSpace {
                next_packet_number: final(self).next_packet_number,
                ..*old(self)
            }),
            match r {
                Ok(pn) => pn == old(self).next_packet_number && final(self).next_packet_number
                    == pn + 1,
                Err(e) => e is PacketNumberOverflow && old(self).next_packet_number == u64::MAX
                    && final(self).next_packet_number == u64::MAX,
            },
    {
        take_packet_number(&mut self.next_packet_number)
    }
}

/// Hands out the number in `next` and moves on to the one after it.
pub fn take_packet_number(next: &mut u64) -> (r: Result<u64, ZtError>)
    ensures
        match r {
            Ok(pn) => pn == *old(next) && *final(next) == pn + 1,
            Err(e) => e is PacketNumberOverflow && *old(next) == u64::MAX && *final(next)
                == u64::MAX,
        },
{
    let n: u64 = *next;
    match n.checked_add(1) {
        Some(after) => {
            *next = after;
            Ok(n)
        },
        None => Err(ZtError::PacketNumberOverflow),
    }
}

} // verus!
