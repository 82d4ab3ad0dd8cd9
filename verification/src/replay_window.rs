//! Replay protection over packet numbers.

use crate::bitmap::{mark, PacketBitmap, WINDOW_PACKETS};
use vstd::prelude::*;

verus! {

/// A 2048-packet replay protection window.
///
/// The window knows the highest packet number processed and, for the 2048
/// numbers up to it, which ones were processed. Anything older counts as a
/// replay. The size leaves room for reordering on paths with a high
/// bandwidth-delay product while memory stays bounded.
pub struct ReplayWindow {
    pub highest_processed: Option<u64>,
    pub bitmask: PacketBitmap,
}

impl ReplayWindow {
    /// The mask agrees with the highest packet number.
    pub open spec fn wf(&self) -> bool {
        crate::bitmap::mask_fits(self.highest_processed, &self.bitmask)
    }

    /// The processed packets that the window still remembers one by one.
    pub open spec fn processed(&self) -> Set<u64> {
        crate::bitmap::marked(self.highest_processed, &self.bitmask)
    }

    /// Whether `pn` is refused: already processed, or too old to tell.
    pub open spec fn refuses(&self, pn: u64) -> bool {
        self.highest_processed matches Some(h) && (pn + WINDOW_PACKETS <= h
            || self.processed().contains(pn))
    }

    /// A window that has seen nothing.
    pub fn new() -> (r: Self)
        ensures
            r.wf(),
            r.highest_processed is None,
            r.processed() == Set::<u64>::empty(),
    {
        let r = ReplayWindow { highest_processed: None, bitmask: PacketBitmap::new() };
        assert(r.processed() =~= Set::<u64>::empty());
        r
    }

    /// Whether `pn` must be rejected as a replay.
    pub fn is_replay(&self, pn: u64) -> (r: bool)
        requires
            self.wf(),
        ensures
            r == self.refuses(pn),
    {
        let highest = match self.highest_processed {
            None => {
                return false;
            },
            Some(h) => h,
        };
        if pn <= highest {
            let diff: u64 = highest - pn;
            if diff >= WINDOW_PACKETS {
                return true;
            }
            return self.bitmask.get(diff);
        }
        false
    }

    /// Records that `pn` was processed.
    pub fn mark_processed(&mut self, pn: u64)
        requires
            old(self).wf(),
        ensures
            final(self).wf(),
            final(self).highest_processed == Some(
                crate::bitmap::raised(old(self).highest_processed, pn),
            ),
            final(self).processed() == crate::bitmap::slide(
                old(self).processed(),
                old(self).highest_processed,
                pn,
            ),
    {
        self.highest_processed = mark(self.highest_processed, &mut self.bitmask, pn);
    }
}

/// A processed packet is refused from then on: at once, and after every later packet.
pub proof fn law_processed_is_refused_for_good(before: ReplayWindow, after: ReplayWindow, pn: u64)
    requires
        after.highest_processed == Some(crate::bitmap::raised(before.highest_processed, pn)),
        after.processed() == crate::bitmap::slide(
            before.processed(),
            before.highest_processed,
            pn,
        ),
    ensures
        after.refuses(pn),
        forall|x: u64| before.refuses(x) ==> after.refuses(x),
{
}

/// Processing `pn` makes no other packet in the window look like a replay.
pub proof fn law_fresh_packets_stay_acceptable(before: ReplayWindow, after: ReplayWindow, pn: u64, x: u64)
    requires
        after.highest_processed == Some(crate::bitmap::raised(before.highest_processed, pn)),
        after.processed() == crate::bitmap::slide(
            before.processed(),
            before.highest_processed,
            pn,
        ),
        x != pn,
        !before.refuses(x),
        x + WINDOW_PACKETS > crate::bitmap::raised(before.highest_processed, pn),
    ensures
        !after.refuses(x),
{
}

/// A packet is refused if and only if it was processed, or lies 2048 or more below
/// the highest that was. Nothing is refused before the first, and nothing above
/// the highest.
pub proof fn law_only_old_packets_are_refused(w: ReplayWindow, pn: u64)
    ensures
        w.highest_processed is None ==> !w.refuses(pn),
        w.highest_processed matches Some(h) ==> (w.refuses(pn) <==> pn + 2048 <= h
            || w.processed().contains(pn)),
        w.highest_processed matches Some(h) ==> (pn > h ==> !w.refuses(pn)),
{
}

} // verus!
