//! A receive buffer that keeps what arrived as a sorted list of ranges.

use crate::stream_buffer::{copy_out, lay_down};
use bytes::Bytes;
use vstd::prelude::*;

verus! {

/// The offsets that a list of half-open ranges covers.
pub open spec fn listed(ranges: Seq<(u64, u64)>) -> Set<int> {
    Set::new(
        |x: int|
            exists|i: int| 0 <= i < ranges.len() && (#[trigger] ranges[i]).0 <= x < ranges[i].1,
    )
}

/// The ranges are not empty, ascend, and leave a gap between neighbours.
pub open spec fn sorted_apart(ranges: Seq<(u64, u64)>) -> bool {
    &&& forall|i: int| 0 <= i < ranges.len() ==> (#[trigger] ranges[i]).0 < ranges[i].1
    &&& forall|i: int, j: int|
        0 <= i < j < ranges.len() ==> (#[trigger] ranges[i]).1 < (#[trigger] ranges[j]).0
}

/// A circular buffer of fixed size for stream data that arrives out of order.
pub struct StreamReceiveBuffer {
    pub buffer: Vec<u8>,
    pub read_head: u64,
    pub write_head: u64,
    pub received_ranges: Vec<(u64, u64)>,
}

impl StreamReceiveBuffer {
    /// The offsets that have arrived and are still remembered.
    pub open spec fn received(&self) -> Set<int> {
        listed(self.received_ranges@)
    }

    /// The size of the ring.
    pub open spec fn capacity(&self) -> nat {
        self.buffer@.len()
    }

    /// The ranges are sorted, kept apart and lie within the window.
    pub open spec fn wf(&self) -> bool {
        &&& self.capacity() <= isize::MAX
        &&& sorted_apart(self.received_ranges@)
        &&& forall|x: int| #[trigger]
            self.received().contains(x) ==> 0 <= x < self.read_head + self.capacity()
    }

    /// An empty buffer of `capacity` bytes.
    pub fn new(capacity: usize) -> (r: Self)
        requires
            capacity <= isize::MAX,
        ensures
            r.wf(),
            r.buffer@ == Seq::new(capacity as nat, |i: int| 0u8),
            r.read_head == 0,
            r.write_head == 0,
            r.received() == Set::<int>::empty(),
    {
        let r = StreamReceiveBuffer {
            buffer: vec![0u8; capacity],
            read_head: 0,
            write_head: 0,
            received_ranges: Vec::new(),
        };
        assert(r.received() =~= Set::<int>::empty());
        assert(r.buffer@ =~= Seq::new(capacity as nat, |i: int| 0u8));
        r
    }

    /// Takes in `data` at stream offset `offset`, or refuses it if it reaches
    /// beyond the window.
    pub fn write(&mut self, offset: u64, data: &[u8]) -> (r: bool)
        requires
            old(self).wf(),
            offset + data@.len() <= u64::MAX,
            old(self).read_head + old(self).capacity() <= u64::MAX,
            data@.len() == 0 || old(self).capacity() > 0 || offset + data@.len() > old(
                self,
            ).read_head,
        ensures
            final(self).wf(),
            final(self).read_head == old(self).read_head,
            final(self).capacity() == old(self).capacity(),
            r <==> data@.len() == 0 || offset + data@.len() <= old(self).read_head + old(
                self,
            ).capacity(),
            !r || data@.len() == 0 ==> *final(self) == *old(self),
            r && data@.len() > 0 ==> {
                &&& final(self).write_head == if offset + data@.len() > old(self).write_head {
                    (offset + data@.len()) as u64
                } else {
                    old(self).write_head
                }
                &&& final(self).received() == old(self).received().union(
                    crate::stream_buffer::span(offset as int, offset + data@.len()),
                )
                &&& final(self).buffer@ == crate::stream_buffer::laid_down(
                    old(self).buffer@,
                    offset as int,
                    data@,
                )
            },
    {
        if data.len() == 0 {
            return true;
        }
        let end_offset: u64 = offset + data.len() as u64;
        if end_offset > self.read_head + self.buffer.len() as u64 {
            return false;
        }
        if end_offset > self.write_head {
            self.write_head = end_offset;
        }
        lay_down(&mut self.buffer, offset, data);
        self.add_range(offset, end_offset);
        assert forall|x: int| #[trigger] self.received().contains(x) implies 0 <= x
            < self.read_head + self.capacity() by {
            assert(old(self).received().contains(x) || offset <= x < end_offset);
        }
        true
    }

    /// Adds `[start, end)`, melting it with the ranges it overlaps or touches.
    fn add_range(&mut self, start: u64, end: u64)
        requires
            sorted_apart(old(self).received_ranges@),
            start < end,
        ensures
            final(self).buffer == old(self).buffer,
            final(self).read_head == old(self).read_head,
            final(self).write_head == old(self).write_head,
            sorted_apart(final(self).received_ranges@),
            final(self).received() == old(self).received().union(
                crate::stream_buffer::span(start as int, end as int),
            ),
    {
        let ghost goal = self.received().union(
            crate::stream_buffer::span(start as int, end as int),
        );
        let mut lo: u64 = start;
        let mut hi: u64 = end;
        let mut i: usize = 0;
        while i < self.received_ranges.len()
            invariant
                self.buffer == old(self).buffer,
                self.read_head == old(self).read_head,
                self.write_head == old(self).write_head,
                i <= self.received_ranges@.len(),
                sorted_apart(self.received_ranges@),
                lo < hi,
                forall|j: int|
                    0 <= j < i ==> (#[trigger] self.received_ranges@[j]).1 < lo || hi
                        < self.received_ranges@[j].0,
                goal == self.received().union(crate::stream_buffer::span(lo as int, hi as int)),
            decreases self.received_ranges@.len() - i,
        {
            let r_start: u64 = self.received_ranges[i].0;
            let r_end: u64 = self.received_ranges[i].1;
            if lo <= r_end && r_start <= hi {
                let ghost before = self.received_ranges@;
                let ghost (lo0, hi0) = (lo, hi);
                if r_start < lo {
                    lo = r_start;
                }
                if r_end > hi {
                    hi = r_end;
                }
                self.received_ranges.remove(i);
                proof {
                    let after = self.received_ranges@;
                    assert(after == before.remove(i as int));
                    assert forall|x: int| listed(before).contains(x) || lo0 <= x < hi0 <==> listed(
                        after,
                    ).contains(x) || lo <= x < hi by {
                        if listed(before).contains(x) {
                            let j = choose|j: int|
                                0 <= j < before.len() && (#[trigger] before[j]).0 <= x
                                    < before[j].1;
                            if j < i {
                                assert(after[j] == before[j]);
                            } else if j > i {
                                assert(after[j - 1] == before[j]);
                            }
                        }
                        if listed(after).contains(x) {
                            let j = choose|j: int|
                                0 <= j < after.len() && (#[trigger] after[j]).0 <= x < after[j].1;
                            if j < i {
                                assert(after[j] == before[j]);
                            } else {
                                assert(after[j] == before[j + 1]);
                            }
                        }
                        if r_start <= x < r_end {
                            assert(before[i as int].0 <= x < before[i as int].1);
                        }
                    }
                    assert(goal =~= self.received().union(
                        crate::stream_buffer::span(lo as int, hi as int),
                    ));
                }
            } else {
                i = i + 1;
            }
        }
        let mut p: usize = 0;
        while p < self.received_ranges.len() && self.received_ranges[p].0 <= lo
            invariant
                p <= self.received_ranges@.len(),
                forall|j: int| 0 <= j < p ==> (#[trigger] self.received_ranges@[j]).0 <= lo,
            decreases self.received_ranges@.len() - p,
        {
            p = p + 1;
        }
        let ghost before = self.received_ranges@;
        self.received_ranges.insert(p, (lo, hi));
        proof {
            let after = self.received_ranges@;
            assert(after == before.insert(p as int, (lo, hi)));
            assert forall|j: int| 0 <= j < before.len() implies if j < p {
                (#[trigger] before[j]).1 < lo
            } else {
                hi < before[j].0
            } by {
                if j >= p {
                    assert(before[p as int].0 > lo);
                    if j > p {
                        assert(before[p as int].1 < before[j].0);
                    }
                }
            }
            assert forall|x: int| listed(before).contains(x) || lo <= x < hi <==> listed(
                after,
            ).contains(x) by {
                if listed(before).contains(x) {
                    let j = choose|j: int|
                        0 <= j < before.len() && (#[trigger] before[j]).0 <= x < before[j].1;
                    if j < p {
                        assert(after[j] == before[j]);
                    } else {
                        assert(after[j + 1] == before[j]);
                    }
                }
                if listed(after).contains(x) {
                    let j = choose|j: int|
                        0 <= j < after.len() && (#[trigger] after[j]).0 <= x < after[j].1;
                    if j < p {
                        assert(after[j] == before[j]);
                    } else if j > p {
                        assert(after[j] == before[j - 1]);
                    }
                }
                if lo <= x < hi {
                    assert(after[p as int] == (lo, hi));
                }
            }
            assert(goal =~= self.received());
        }
    }

    /// Hands out the data from the read position up to the next gap.
    ///
    /// There is none if the byte at the read position is missing, or if
    /// something below it arrived that is not joined to it.
    pub fn read_contiguous(&mut self) -> (r: Option<Bytes>)
        requires
            old(self).wf(),
        ensures
            final(self).wf(),
            r is Some <==> crate::stream_buffer::readable(
                old(self).received(),
                old(self).read_head as int,
            ),
            r is None ==> *final(self) == *old(self),
            r is Some ==> {
                &&& crate::stream_buffer::run_ends_at(
                    old(self).received(),
                    old(self).read_head as int,
                    final(self).read_head as int,
                )
                &&& crate::payload::contents(r->0) == crate::stream_buffer::ring_slice(
                    old(self).buffer@,
                    old(self).read_head as int,
                    final(self).read_head as int,
                )
                &&& final(self).received() == old(self).received().filter(
                    |x: int| x >= final(self).read_head,
                )
                &&& final(self).buffer@ == old(self).buffer@
                &&& final(self).write_head == old(self).write_head
            },
    {
        let ghost ranges = self.received_ranges@;
        let ghost received = self.received();
        if self.received_ranges.len() == 0 {
            return None;
        }
        let first_start: u64 = self.received_ranges[0].0;
        let end: u64 = self.received_ranges[0].1;
        proof {
            let head = self.read_head as int;
            assert(ranges[0] == (first_start, end));
            assert(!received.contains(end as int)) by {
                if received.contains(end as int) {
                    let j = choose|j: int|
                        0 <= j < ranges.len() && (#[trigger] ranges[j]).0 <= end < ranges[j].1;
                    assert(j != 0);
                }
            }
            assert forall|x: int| first_start <= x < end implies received.contains(x) by {
                assert(ranges[0].0 <= x < ranges[0].1);
            }
            if first_start <= head < end {
                assert forall|x: int, y: int| #[trigger]
                    received.contains(x) && x <= y <= head implies #[trigger] received.contains(
                    y,
                ) by {
                    let j = choose|j: int|
                        0 <= j < ranges.len() && (#[trigger] ranges[j]).0 <= x < ranges[j].1;
                    assert(j == 0 || ranges[0].1 < ranges[j].0);
                }
            }
            if crate::stream_buffer::readable(received, head) {
                let j = choose|j: int|
                    0 <= j < ranges.len() && (#[trigger] ranges[j]).0 <= head < ranges[j].1;
                if j != 0 {
                    assert(ranges[0].1 < ranges[j].0);
                    assert(received.contains(first_start as int));
                    assert(received.contains(end as int));
                }
            }
        }
        if first_start <= self.read_head && end > self.read_head {
            assert(received.contains(end - 1));
            let out = copy_out(&self.buffer, self.read_head, end);
            self.read_head = end;
            self.received_ranges.remove(0);
            proof {
                let rest = self.received_ranges@;
                assert(rest == ranges.remove(0));
                assert forall|x: int| listed(rest).contains(x) <==> received.contains(x) && x
                    >= end by {
                    if listed(rest).contains(x) {
                        let j = choose|j: int|
                            0 <= j < rest.len() && (#[trigger] rest[j]).0 <= x < rest[j].1;
                        assert(rest[j] == ranges[j + 1]);
                        assert(ranges[0].1 < ranges[j + 1].0);
                    }
                    if received.contains(x) && x >= end {
                        let j = choose|j: int|
                            0 <= j < ranges.len() && (#[trigger] ranges[j]).0 <= x < ranges[j].1;
                        assert(rest[j - 1] == ranges[j]);
                    }
                }
                assert(self.received() =~= received.filter(|x: int| x >= self.read_head));
                assert forall|x: int| #[trigger] self.received().contains(x) implies 0 <= x
                    < self.read_head + self.capacity() by {
                    assert(received.contains(x));
                }
            }
            return Some(out);
        }
        None
    }
}

} // verus!
