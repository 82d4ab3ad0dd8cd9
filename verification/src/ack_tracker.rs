//! Received packet numbers and the ranges that acknowledge them.

use crate::bitmap::{mark, PacketBitmap};
use vstd::prelude::*;

verus! {

/// At most so many ranges go into one acknowledgement.
pub const MAX_ACK_RANGES: usize = 128;

/// Tracks received and decrypted packets to generate selective acknowledgements.
pub struct AckTracker {
    pub highest_processed: Option<u64>,
    pub bitmask: PacketBitmap,
}

/// `r` is a run of consecutive received packets that cannot be made longer.
pub open spec fn is_maximal_run(received: Set<u64>, r: (u64, u64)) -> bool {
    &&& r.0 <= r.1
    &&& forall|pn: u64| r.0 <= pn <= r.1 ==> #[trigger] received.contains(pn)
    &&& r.0 > 0 ==> !received.contains((r.0 - 1) as u64)
    &&& r.1 < u64::MAX ==> !received.contains((r.1 + 1) as u64)
}

/// Whether some range of `ranges` holds `pn`.
pub open spec fn covers(ranges: Seq<(u64, u64)>, pn: u64) -> bool {
    exists|i: int| 0 <= i < ranges.len() && (#[trigger] ranges[i]).0 <= pn <= ranges[i].1
}

/// `ranges` lists the maximal runs of `received` from the highest down, all of
/// them or the first `limit`.
pub open spec fn lists_runs(received: Set<u64>, limit: nat, ranges: Seq<(u64, u64)>) -> bool {
    &&& ranges.len() <= limit
    &&& forall|i: int| 0 <= i < ranges.len() ==> is_maximal_run(received, #[trigger] ranges[i])
    &&& forall|i: int, j: int|
        0 <= i < j < ranges.len() ==> (#[trigger] ranges[j]).1 < (#[trigger] ranges[i]).0
    &&& forall|pn: u64| #[trigger]
        received.contains(pn) && (ranges.len() < limit || pn >= ranges.last().0) ==> covers(
            ranges,
            pn,
        )
}

impl AckTracker {
    /// The mask agrees with the highest packet number.
    pub open spec fn wf(&self) -> bool {
        crate::bitmap::mask_fits(self.highest_processed, &self.bitmask)
    }

    /// The received packets that the tracker remembers.
    pub open spec fn received(&self) -> Set<u64> {
        crate::bitmap::marked(self.highest_processed, &self.bitmask)
    }

    /// A tracker that has seen nothing.
    pub fn new() -> (r: Self)
        ensures
            r.wf(),
            r.highest_processed is None,
            r.received() == Set::<u64>::empty(),
    {
        let r = AckTracker { highest_processed: None, bitmask: PacketBitmap::new() };
        assert(r.received() =~= Set::<u64>::empty());
        r
    }

    /// Records that `pn` was received.
    pub fn mark_processed(&mut self, pn: u64)
        requires
            old(self).wf(),
        ensures
            final(self).wf(),
            final(self).highest_processed == Some(
                crate::bitmap::raised(old(self).highest_processed, pn),
            ),
            final(self).received() == crate::bitmap::slide(
                old(self).received(),
                old(self).highest_processed,
                pn,
            ),
    {
        self.highest_processed = mark(self.highest_processed, &mut self.bitmask, pn);
    }

    /// The received packets as inclusive ranges, from the highest down, at most
    /// `MAX_ACK_RANGES` of them.
    pub fn get_ack_ranges(&self) -> (ranges: Vec<(u64, u64)>)
        requires
            self.wf(),
        ensures
            lists_runs(self.received(), MAX_ACK_RANGES as nat, ranges@),
    {
        let mut ranges: Vec<(u64, u64)> = Vec::new();
        let highest = match self.highest_processed {
            None => {
                return ranges;
            },
            Some(h) => h,
        };
        proof {
            self.bitmask.lemma_range();
        }
        let mut in_range = false;
        let mut current_end: u64 = 0;
        let mut diff: u64 = 0;
        while diff < 2048 && diff <= highest
            invariant
                self.wf(),
                self.highest_processed == Some(highest),
                diff <= 2048,
                in_range ==> diff <= highest + 1,
                ranges.len() < MAX_ACK_RANGES,
                in_range ==> 0 <= highest - current_end < diff,
                in_range ==> forall|i: int|
                    highest - current_end <= i < diff ==> #[trigger] self.bitmask.bit(i),
                in_range ==> !self.bitmask.bit(highest - current_end - 1),
                !in_range ==> !self.bitmask.bit(diff - 1),
                forall|j: int|
                    0 <= j < ranges.len() ==> is_maximal_run(self.received(), #[trigger] ranges[j])
                        && ranges[j].0 as int > if in_range {
                        current_end as int + 1
                    } else {
                        highest - diff + 1
                    },
                forall|i: int, j: int|
                    0 <= i < j < ranges.len() ==> (#[trigger] ranges[j]).1 < (
                    #[trigger] ranges[i]).0,
                forall|pn: u64| #[trigger]
                    self.received().contains(pn) && pn > (if in_range {
                        current_end as int
                    } else {
                        highest - diff
                    }) ==> covers(ranges@, pn),
            decreases 2048 - diff,
        {
            if diff % 64 == 0 {
                let word: u64 = self.bitmask.word((diff / 64) as usize);
                proof {
                    self.bitmask.lemma_uniform_word(diff as int / 64);
                }
                if !in_range && word == 0 {
                    assert(!self.bitmask.bit(diff + 63));
                    diff = diff + 64;
                    continue ;
                }
                if in_range && word == u64::MAX {
                    assert(self.bitmask.bit(diff + 63));
                    diff = diff + 64;
                    continue ;
                }
            }
            let received = self.bitmask.get(diff);
            let pn: u64 = highest - diff;
            assert(self.received().contains(pn) == received);
            if received {
                if !in_range {
                    in_range = true;
                    current_end = pn;
                }
            } else if in_range {
                let ghost before = ranges@;
                ranges.push((pn + 1, current_end));
                proof {
                    let r = ((pn + 1) as u64, current_end);
                    assert(is_maximal_run(self.received(), r)) by {
                        assert forall|x: u64| r.0 <= x <= r.1 implies #[trigger]
                            self.received().contains(x) by {
                            assert(self.bitmask.bit(highest - x));
                        }
                    }
                    assert forall|x: u64| #[trigger]
                        self.received().contains(x) && x >= pn implies covers(ranges@, x) by {
                        if x > current_end {
                            assert(covers(before, x));
                            let i = choose|i: int|
                                0 <= i < before.len() && (#[trigger] before[i]).0 <= x
                                    <= before[i].1;
                            assert(ranges@[i] == before[i]);
                        } else {
                            assert(x != pn);
                            assert(ranges@[before.len() as int] == r);
                        }
                    }
                }
                if ranges.len() >= MAX_ACK_RANGES {
                    return ranges;
                }
                in_range = false;
            }
            diff = diff + 1;
        }
        proof {
            self.bitmask.lemma_range();
        }
        let ghost before = ranges@;
        if in_range {
            let lowest: u64 = highest.saturating_sub(diff.saturating_sub(1));
            ranges.push((lowest, current_end));
            proof {
                let r = (lowest, current_end);
                assert(is_maximal_run(self.received(), r)) by {
                    assert forall|x: u64| r.0 <= x <= r.1 implies #[trigger]
                        self.received().contains(x) by {
                        assert(self.bitmask.bit(highest - x));
                    }
                    assert(!self.bitmask.bit(diff as int));
                }
                assert(ranges@[before.len() as int] == r);
            }
        }
        assert forall|x: u64| #[trigger] self.received().contains(x) implies covers(
            ranges@,
            x,
        ) by {
            assert(self.bitmask.bit(highest - x));
            assert(highest - x < 2048);
            if !in_range || x > current_end {
                assert(covers(before, x));
                let i = choose|i: int|
                    0 <= i < before.len() && (#[trigger] before[i]).0 <= x <= before[i].1;
                assert(ranges@[i] == before[i]);
            }
        }
        ranges
    }
}

/// An acknowledgement never names a packet that did not arrive.
pub proof fn law_only_what_arrived_is_acknowledged(
    received: Set<u64>,
    limit: nat,
    ranges: Seq<(u64, u64)>,
)
    requires
        lists_runs(received, limit, ranges),
    ensures
        forall|pn: u64| #[trigger] covers(ranges, pn) ==> received.contains(pn),
{
    assert forall|pn: u64| #[trigger] covers(ranges, pn) implies received.contains(pn) by {
        let i = choose|i: int|
            0 <= i < ranges.len() && (#[trigger] ranges[i]).0 <= pn <= ranges[i].1;
        assert(is_maximal_run(received, ranges[i]));
    }
}

/// The highest packet that arrived is acknowledged, however many gaps there are.
pub proof fn law_the_highest_is_acknowledged(
    received: Set<u64>,
    limit: nat,
    ranges: Seq<(u64, u64)>,
    highest: u64,
)
    requires
        limit > 0,
        lists_runs(received, limit, ranges),
        received.contains(highest),
        forall|pn: u64| #[trigger] received.contains(pn) ==> pn <= highest,
    ensures
        covers(ranges, highest),
{
    if ranges.len() == limit {
        assert(is_maximal_run(received, ranges[ranges.len() - 1]));
        assert(received.contains(ranges.last().0));
    }
}

/// A packet is acknowledged as soon as it arrived, unless there are too many gaps
/// above it or it is too old to be remembered.
pub proof fn law_an_arrived_packet_is_acknowledged(
    before: AckTracker,
    after: AckTracker,
    pn: u64,
    ranges: Seq<(u64, u64)>,
)
    requires
        after.received() == crate::bitmap::slide(
            before.received(),
            before.highest_processed,
            pn,
        ),
        pn + crate::bitmap::WINDOW_PACKETS > crate::bitmap::raised(before.highest_processed, pn),
        lists_runs(after.received(), MAX_ACK_RANGES as nat, ranges),
        ranges.len() < MAX_ACK_RANGES,
    ensures
        covers(ranges, pn),
{
    assert(after.received().contains(pn));
}

/// The ranges of an acknowledgement come from the highest down. None can be made
/// longer at either end, so between two of them a packet is missing. There are no
/// more of them than the limit, and some as soon as anything arrived.
pub proof fn law_a_packet_is_missing_between_ranges(
    received: Set<u64>,
    limit: nat,
    ranges: Seq<(u64, u64)>,
    i: int,
    j: int,
)
    requires
        lists_runs(received, limit, ranges),
        0 <= i < j < ranges.len(),
    ensures
        ranges.len() <= limit,
        ranges[i].0 <= ranges[i].1,
        ranges[j].1 + 1 < ranges[i].0,
        !received.contains((ranges[j].1 + 1) as u64),
        !received.contains((ranges[i].0 - 1) as u64),
        ranges[i].1 < u64::MAX ==> !received.contains((ranges[i].1 + 1) as u64),
        ranges[j].0 > 0 ==> !received.contains((ranges[j].0 - 1) as u64),
{
    assert(is_maximal_run(received, ranges[i]));
    assert(is_maximal_run(received, ranges[j]));
    assert(received.contains(ranges[i].0));
}

/// A single range cannot be made longer at either end, and there is a range as soon
/// as anything arrived.
pub proof fn law_ranges_are_as_long_as_they_can_be(
    received: Set<u64>,
    limit: nat,
    ranges: Seq<(u64, u64)>,
    pn: u64,
)
    requires
        lists_runs(received, limit, ranges),
        limit > 0,
    ensures
        received.contains(pn) ==> ranges.len() > 0,
        forall|i: int| #![trigger ranges[i]]
            0 <= i < ranges.len() && ranges[i].1 < u64::MAX && pn == ranges[i].1 + 1
                ==> !received.contains(pn),
        forall|i: int| #![trigger ranges[i]]
            0 <= i < ranges.len() && pn + 1 == ranges[i].0 ==> !received.contains(pn),
{
    if received.contains(pn) && ranges.len() == 0 {
        assert(covers(ranges, pn));
    }
    assert forall|i: int| #![trigger ranges[i]]
        0 <= i < ranges.len() && ranges[i].1 < u64::MAX && pn == ranges[i].1
            + 1 implies !received.contains(pn) by {
        assert(is_maximal_run(received, ranges[i]));
    }
    assert forall|i: int| #![trigger ranges[i]]
        0 <= i < ranges.len() && pn + 1 == ranges[i].0 implies !received.contains(pn) by {
        assert(is_maximal_run(received, ranges[i]));
    }
}

} // verus!
