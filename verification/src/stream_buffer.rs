//! Reassembly of a stream from data that arrives in any order.

use crate::payload::{buffer_extend, buffer_freeze, buffer_with_capacity};
use crate::ranges::{entries_in_order, first_entry};
use bytes::Bytes;
use std::collections::BTreeMap;
use vstd::prelude::*;

verus! {

broadcast use {
    vstd::std_specs::btree::group_btree_axioms,
};

/// The offsets from `lo` up to but not including `hi`.
pub open spec fn span(lo: int, hi: int) -> Set<int> {
    vstd::set_lib::set_int_range(lo, hi)
}

/// A ring after `data` was laid down in it from stream offset `offset` on. Each
/// byte goes to its offset modulo the ring's size, later bytes over earlier ones.
pub open spec fn laid_down(ring: Seq<u8>, offset: int, data: Seq<u8>) -> Seq<u8>
    decreases data.len(),
{
    if data.len() == 0 {
        ring
    } else {
        laid_down(ring, offset, data.drop_last()).update(
            (offset + data.len() - 1) % (ring.len() as int),
            data.last(),
        )
    }
}

/// The bytes at the offsets from `lo` up to but not including `hi`.
pub open spec fn ring_slice(ring: Seq<u8>, lo: int, hi: int) -> Seq<u8> {
    Seq::new((hi - lo) as nat, |i: int| ring[(lo + i) % (ring.len() as int)])
}

/// The offsets that a set of half-open ranges covers.
pub open spec fn covered(ranges: Map<u64, u64>) -> Set<int> {
    Set::new(|x: int| exists|k: u64| #[trigger] ranges.contains_key(k) && k <= x < ranges[k])
}

/// No range is empty, and there is a gap between any two.
pub open spec fn apart(ranges: Map<u64, u64>) -> bool {
    &&& forall|k: u64| #[trigger] ranges.contains_key(k) ==> k < ranges[k]
    &&& forall|a: u64, b: u64| #[trigger]
        ranges.contains_key(a) && #[trigger] ranges.contains_key(b) && a < b ==> ranges[a] < b
}

/// Whether `[lo, hi)` is received and `hi` is not.
pub open spec fn run_ends_at(received: Set<int>, lo: int, hi: int) -> bool {
    &&& lo < hi
    &&& forall|x: int| lo <= x < hi ==> #[trigger] received.contains(x)
    &&& !received.contains(hi)
}

/// Whether everything received so far up to `head` and `head` itself form one run.
pub open spec fn readable(received: Set<int>, head: int) -> bool {
    &&& received.contains(head)
    &&& forall|x: int, y: int| #[trigger]
        received.contains(x) && x <= y <= head ==> #[trigger] received.contains(y)
}

/// A circular buffer of fixed size for stream data that arrives out of order.
///
/// What arrived is tracked as a map from the start of each range to its end.
pub struct StreamReceiveBuffer {
    pub buffer: Vec<u8>,
    pub read_head: u64,
    pub write_head: u64,
    pub received_ranges: BTreeMap<u64, u64>,
}

impl StreamReceiveBuffer {
    /// The offsets that have arrived and are still remembered.
    pub open spec fn received(&self) -> Set<int> {
        covered(self.received_ranges@)
    }

    /// The size of the ring.
    pub open spec fn capacity(&self) -> nat {
        self.buffer@.len()
    }

    /// The ranges are kept apart and lie within the window.
    pub open spec fn wf(&self) -> bool {
        &&& self.capacity() <= isize::MAX
        &&& apart(self.received_ranges@)
        &&& self.capacity() == 0 ==> self.received() == Set::<int>::empty()
        &&& forall|x: int| #[trigger]
            self.received().contains(x) ==> 0 <= x < self.read_head + self.capacity()
    }

    /// An empty buffer of `capacity` bytes.
    pub fn new(capacity: usize) -> (r: Self)
        requires
            capacity <= isize::MAX,
        ensures
            r.wf(),
            r.capacity() == capacity,
            r.buffer@ == Seq::new(capacity as nat, |i: int| 0u8),
            r.read_head == 0,
            r.write_head == 0,
            r.received() == Set::<int>::empty(),
    {
        let r = StreamReceiveBuffer {
            buffer: vec![0u8; capacity],
            read_head: 0,
            write_head: 0,
            received_ranges: BTreeMap::new(),
        };
        assert(r.received() =~= Set::<int>::empty());
        assert(r.buffer@ =~= Seq::new(capacity as nat, |i: int| 0u8));
        r
    }

    /// Takes in `data` at stream offset `offset` and returns how many of its
    /// offsets are new, or `None` if the data reaches beyond the window.
    pub fn write(&mut self, offset: u64, data: &[u8]) -> (r: Option<usize>)
        requires
            old(self).wf(),
            offset + data@.len() <= u64::MAX,
            old(self).read_head + old(self).capacity() <= u64::MAX,
            data@.len() == 0 || old(self).capacity() > 0 || offset + data@.len() > old(
                self,
            ).read_head,
        ensures
            final(self).wf(),
            final(self).read_head == old(self).read_head,
            final(self).capacity() == old(self).capacity(),
            r is None <==> data@.len() > 0 && offset + data@.len() > old(self).read_head + old(
                self,
            ).capacity(),
            r is None || data@.len() == 0 ==> *final(self) == *old(self),
            r is Some ==> r->0 == span(offset as int, offset + data@.len()).difference(
                old(self).received(),
            ).len(),
            r is Some && data@.len() > 0 ==> {
                &&& final(self).write_head == if offset + data@.len() > old(self).write_head {
                    (offset + data@.len()) as u64
                } else {
                    old(self).write_head
                }
                &&& final(self).received() == old(self).received().union(
                    span(offset as int, offset + data@.len()),
                )
                &&& final(self).buffer@ == laid_down(old(self).buffer@, offset as int, data@)
            },
    {
        proof {
            vstd::set_lib::lemma_int_range(offset as int, offset + data@.len());
        }
        if data.len() == 0 {
            assert(span(offset as int, offset as int).difference(self.received()) =~= Set::<
                int,
            >::empty());
            return Some(0);
        }
        let end_offset: u64 = offset + data.len() as u64;
        if end_offset > self.read_head + self.buffer.len() as u64 {
            return None;
        }
        if end_offset > self.write_head {
            self.write_head = end_offset;
        }
        lay_down(&mut self.buffer, offset, data);
        let added: u64 = self.add_range(offset, end_offset);
        assert forall|x: int| #[trigger] self.received().contains(x) implies 0 <= x
            < self.read_head + self.capacity() by {
            assert(old(self).received().contains(x) || offset <= x < end_offset);
        }
        Some(added as usize)
    }

    /// Records that `[start, end)` arrived and returns how many offsets are new.
    /// Ranges that overlap or touch become one.
    pub fn add_range(&mut self, start: u64, end: u64) -> (added: u64)
        requires
            apart(old(self).received_ranges@),
            start < end,
        ensures
            apart(final(self).received_ranges@),
            final(self).received() == old(self).received().union(span(start as int, end as int)),
            added == span(start as int, end as int).difference(old(self).received()).len(),
            added == end - start - span(start as int, end as int).intersect(
                old(self).received(),
            ).len(),
            *final(self) == (StreamReceiveBuffer {
                received_ranges: final(self).received_ranges,
                ..*old(self)
            }),
    {
        let added: u64 = melt_in(&mut self.received_ranges, start, end);
        proof {
            let new = span(start as int, end as int);
            let seen = old(self).received();
            vstd::set_lib::lemma_int_range(start as int, end as int);
            vstd::set_lib::lemma_len_subset(new.difference(seen), new);
            vstd::set_lib::lemma_len_subset(new.intersect(seen), new);
            assert(new =~= new.difference(seen).union(new.intersect(seen)));
            assert(new.difference(seen).disjoint(new.intersect(seen)));
            vstd::set_lib::lemma_set_disjoint_lens(new.difference(seen), new.intersect(seen));
        }
        added
    }

    /// Hands out the data from the read position up to the next gap.
    ///
    /// There is none if the byte at the read position is missing, or if
    /// something below it arrived that is not joined to it.
    pub fn read_contiguous(&mut self) -> (r: Option<Bytes>)
        requires
            old(self).wf(),
        ensures
            final(self).wf(),
            r is Some <==> readable(old(self).received(), old(self).read_head as int),
            r is None ==> *final(self) == *old(self),
            r is Some ==> {
                &&& run_ends_at(
                    old(self).received(),
                    old(self).read_head as int,
                    final(self).read_head as int,
                )
                &&& crate::payload::contents(r->0) == ring_slice(
                    old(self).buffer@,
                    old(self).read_head as int,
                    final(self).read_head as int,
                )
                &&& final(self).received() == old(self).received().filter(
                    |x: int| x >= final(self).read_head,
                )
                &&& final(self).buffer@ == old(self).buffer@
                &&& final(self).write_head == old(self).write_head
            },
    {
        let ghost ranges = self.received_ranges@;
        match first_entry(&self.received_ranges) {
            None => {
                return None;
            },
            Some((first_start, first_end)) => {
                proof {
                    lemma_first_range(ranges, first_start, self.read_head as int);
                }
                if first_start <= self.read_head && first_end > self.read_head {
                    proof {
                        assert(self.received().contains(first_end - 1)) by {
                            assert(ranges.contains_key(first_start));
                        }
                    }
                    let out = copy_out(&self.buffer, self.read_head, first_end);
                    self.received_ranges.remove(&first_start);
                    self.read_head = first_end;
                    proof {
                        lemma_drop_first(ranges, first_start);
                        let kept = old(self).received().filter(|x: int| x >= self.read_head);
                        assert(self.received() =~= kept);
                        assert forall|x: int| #[trigger] self.received().contains(x) implies 0 <= x
                            < self.read_head + self.capacity() by {
                            assert(old(self).received().contains(x));
                        }
                    }
                    return Some(out);
                }
                None
            },
        }
    }
}

impl StreamReceiveBuffer {
    /// Makes the ring larger. Everything in the window keeps its offset.
    pub fn resize(&mut self, capacity: usize)
        requires
            old(self).wf(),
            old(self).capacity() <= capacity <= isize::MAX,
            old(self).read_head + old(self).capacity() <= u64::MAX,
        ensures
            final(self).wf(),
            final(self).capacity() == capacity,
            final(self).read_head == old(self).read_head,
            final(self).write_head == old(self).write_head,
            final(self).received_ranges == old(self).received_ranges,
            forall|x: int|
                old(self).read_head <= x < old(self).read_head + old(self).capacity()
                    ==> #[trigger] final(self).buffer@[x % (capacity as int)] == old(
                    self,
                ).buffer@[x % (old(self).capacity() as int)],
            forall|end: int|
                old(self).read_head <= end <= old(self).read_head + old(self).capacity()
                    ==> #[trigger] ring_slice(
                    final(self).buffer@,
                    old(self).read_head as int,
                    end,
                ) == ring_slice(old(self).buffer@, old(self).read_head as int, end),
    {
        let old_cap: usize = self.buffer.len();
        let mut ring: Vec<u8> = vec![0u8; capacity];
        let mut i: usize = 0;
        while i < old_cap
            invariant
                i <= old_cap == self.buffer@.len() <= capacity == ring@.len(),
                self.read_head + old_cap <= u64::MAX,
                forall|j: int|
                    0 <= j < i ==> ring@[#[trigger] (self.read_head + j) % (capacity as int)]
                        == self.buffer@[(self.read_head + j) % (old_cap as int)],
            decreases old_cap - i,
        {
            let offset: u64 = self.read_head + i as u64;
            let from: usize = (offset % old_cap as u64) as usize;
            let to: usize = (offset % capacity as u64) as usize;
            ring.set(to, self.buffer[from]);
            proof {
                assert forall|j: int| 0 <= j < i + 1 implies ring@[#[trigger] (self.read_head + j)
                    % (capacity as int)] == self.buffer@[(self.read_head + j) % (
                old_cap as int)] by {
                    lemma_wrap(self.read_head as int, j, capacity as int);
                    lemma_same_place(self.read_head + j, self.read_head + i, capacity as int);
                    lemma_wrap(self.read_head + j, 0, capacity as int);
                }
            }
            i = i + 1;
        }
        self.buffer = ring;
        proof {
            assert(self.received() == old(self).received());
            assert forall|x: int|
                old(self).read_head <= x < old(self).read_head + old(
                    self,
                ).capacity() implies #[trigger] self.buffer@[x % (capacity as int)] == old(
                self,
            ).buffer@[x % (old(self).capacity() as int)] by {
                let j = x - old(self).read_head;
                assert(ring@[(old(self).read_head + j) % (capacity as int)] == old(
                    self,
                ).buffer@[(old(self).read_head + j) % (old_cap as int)]);
            }
            assert forall|end: int|
                old(self).read_head <= end <= old(self).read_head + old(
                    self,
                ).capacity() implies #[trigger] ring_slice(
                self.buffer@,
                old(self).read_head as int,
                end,
            ) == ring_slice(old(self).buffer@, old(self).read_head as int, end) by {
                let head = old(self).read_head as int;
                let a = ring_slice(self.buffer@, head, end);
                let b = ring_slice(old(self).buffer@, head, end);
                assert forall|i: int| 0 <= i < a.len() implies a[i] == b[i] by {
                    let x = head + i;
                    assert(self.buffer@[x % (capacity as int)] == old(self).buffer@[x % (old(
                        self,
                    ).capacity() as int)]);
                }
                assert(a =~= b);
            }
        }
    }
}

/// The first range decides what can be read: the position must lie in it.
proof fn lemma_first_range(ranges: Map<u64, u64>, first: u64, head: int)
    requires
        apart(ranges),
        ranges.contains_key(first),
        forall|k: u64| #[trigger] ranges.contains_key(k) ==> first <= k,
    ensures
        readable(covered(ranges), head) <==> first <= head < ranges[first],
        first <= head < ranges[first] ==> run_ends_at(covered(ranges), head, ranges[first] as int),
{
    let received = covered(ranges);
    assert(!received.contains(ranges[first] as int)) by {
        if received.contains(ranges[first] as int) {
            let k = choose|k: u64| #[trigger]
                ranges.contains_key(k) && k <= ranges[first] < ranges[k];
            assert(k != first);
        }
    }
    assert forall|x: int| first <= x < ranges[first] implies received.contains(x) by {}
    if first <= head < ranges[first] {
        assert forall|x: int, y: int| #[trigger]
            received.contains(x) && x <= y <= head implies #[trigger] received.contains(y) by {
            let k = choose|k: u64| #[trigger] ranges.contains_key(k) && k <= x < ranges[k];
            assert(first <= k);
        }
    }
    if readable(received, head) {
        let k = choose|k: u64| #[trigger] ranges.contains_key(k) && k <= head < ranges[k];
        if k != first {
            assert(received.contains(first as int));
            assert(received.contains(ranges[first] as int));
        }
    }
}

/// Without the first range, what is left is what lies beyond its end.
proof fn lemma_drop_first(ranges: Map<u64, u64>, first: u64)
    requires
        apart(ranges),
        ranges.contains_key(first),
        forall|k: u64| #[trigger] ranges.contains_key(k) ==> first <= k,
    ensures
        apart(ranges.remove(first)),
        forall|x: int| #[trigger]
            covered(ranges.remove(first)).contains(x) <==> covered(ranges).contains(x) && x
                >= ranges[first],
{
    let rest = ranges.remove(first);
    assert forall|x: int| #[trigger] covered(rest).contains(x) <==> covered(ranges).contains(x) && x
        >= ranges[first] by {
        if covered(rest).contains(x) {
            let k = choose|k: u64| #[trigger] rest.contains_key(k) && k <= x < rest[k];
            assert(ranges.contains_key(k));
        }
        if covered(ranges).contains(x) && x >= ranges[first] {
            let k = choose|k: u64| #[trigger] ranges.contains_key(k) && k <= x < ranges[k];
            assert(rest.contains_key(k));
        }
    }
}

/// The remainder of `a + i`, for an `i` of at most one turn.
proof fn lemma_wrap(a: int, i: int, cap: int)
    requires
        0 < cap,
        0 <= i <= cap,
    ensures
        0 <= a % cap < cap,
        (a + i) % cap == if a % cap + i < cap {
            a % cap + i
        } else {
            a % cap + i - cap
        },
{
    vstd::arithmetic::div_mod::lemma_fundamental_div_mod(a, cap);
    let q = a / cap;
    let s = a % cap;
    assert(cap * q == q * cap) by (nonlinear_arith);
    if s + i < cap {
        vstd::arithmetic::div_mod::lemma_fundamental_div_mod_converse(a + i, cap, q, s + i);
    } else {
        assert((q + 1) * cap == q * cap + cap) by (nonlinear_arith);
        vstd::arithmetic::div_mod::lemma_fundamental_div_mod_converse(
            a + i,
            cap,
            q + 1,
            s + i - cap,
        );
    }
}

/// Lays `data` down in a ring, from stream offset `offset` on.
pub(crate) fn lay_down(ring: &mut Vec<u8>, offset: u64, data: &[u8])
    requires
        old(ring)@.len() > 0,
        offset + data@.len() <= u64::MAX,
    ensures
        final(ring)@ == laid_down(old(ring)@, offset as int, data@),
        final(ring)@.len() == old(ring)@.len(),
{
    let cap: u64 = ring.len() as u64;
    let ghost before = ring@;
    let mut i: usize = 0;
    assert(data@.take(0) =~= Seq::<u8>::empty());
    while i < data.len()
        invariant
            i <= data@.len(),
            0 < cap == ring@.len() <= usize::MAX,
            offset + data@.len() <= u64::MAX,
            before.len() == cap,
            ring@ == laid_down(before, offset as int, data@.take(i as int)),
        decreases data@.len() - i,
    {
        let pos: u64 = (offset + i as u64) % cap;
        let ghost prefix = data@.take(i + 1);
        assert(prefix.drop_last() =~= data@.take(i as int));
        ring.set(pos as usize, data[i]);
        i = i + 1;
    }
    assert(data@.take(data@.len() as int) =~= data@);
}

/// Copies the bytes at the offsets from `lo` up to `hi` out of a ring.
pub(crate) fn copy_out(ring: &Vec<u8>, lo: u64, hi: u64) -> (out: Bytes)
    requires
        lo < hi <= lo + ring@.len(),
        ring@.len() <= isize::MAX,
    ensures
        crate::payload::contents(out) == ring_slice(ring@, lo as int, hi as int),
{
    let len: usize = (hi - lo) as usize;
    let mut out = buffer_with_capacity(len);
    let cap: u64 = ring.len() as u64;
    let start_idx: usize = (lo % cap) as usize;
    let end_idx: usize = (hi % cap) as usize;
    proof {
        lemma_wrap(lo as int, len as int, cap as int);
    }
    if start_idx < end_idx {
        buffer_extend(&mut out, vstd::slice::slice_subrange(ring.as_slice(), start_idx, end_idx));
    } else {
        buffer_extend(&mut out, vstd::slice::slice_subrange(ring.as_slice(), start_idx, ring.len()));
        buffer_extend(&mut out, vstd::slice::slice_subrange(ring.as_slice(), 0, end_idx));
    }
    proof {
        let want = ring_slice(ring@, lo as int, hi as int);
        assert forall|i: int| 0 <= i < len implies crate::payload::gathered(out)[i] == #[trigger] want[i] by {
            lemma_wrap(lo as int, i, cap as int);
        }
        assert(crate::payload::gathered(out) =~= want);
    }
    buffer_freeze(out)
}

/// Adds `[start, end)` to a set of ranges, melting it with those it overlaps or
/// touches, and returns how many offsets are new.
fn melt_in(ranges: &mut BTreeMap<u64, u64>, start: u64, end: u64) -> (added: u64)
    requires
        apart(old(ranges)@),
        start < end,
    ensures
        apart(final(ranges)@),
        covered(final(ranges)@) == covered(old(ranges)@).union(span(start as int, end as int)),
        added == span(start as int, end as int).difference(covered(old(ranges)@)).len(),
        added <= end - start,
{
    let original_len: u64 = end - start;
    let mut merged_start: u64 = start;
    let mut merged_end: u64 = end;
    let mut overlap: u64 = 0;
    let entries = entries_in_order(ranges);
    let ghost before = ranges@;
    let ghost new = span(start as int, end as int);
    let ghost mut hit = Set::<int>::empty();
    proof {
        vstd::set_lib::lemma_int_range(start as int, end as int);
        assert(covered(before).union(new) =~= covered(ranges@).union(
            span(merged_start as int, merged_end as int),
        ));
    }
    let mut i: usize = 0;
    while i < entries.len() && entries[i].0 <= end
        invariant
            i <= entries.len(),
            apart(before),
            crate::ranges::lists_in_order(before, entries@),
            start < end,
            new == span(start as int, end as int),
            new.finite(),
            new.len() == end - start,
            merged_start <= start,
            end <= merged_end,
            merged_start == start || (before.contains_key(merged_start) && before[merged_start]
                >= start),
            merged_end == end || exists|k: u64| #[trigger]
                before.contains_key(k) && k <= end && before[k] == merged_end,
            forall|k: u64| #[trigger]
                ranges@.contains_key(k) <==> before.contains_key(k) && (before[k] < start
                    || forall|j: int| 0 <= j < i ==> (#[trigger] entries[j]).0 != k),
            forall|k: u64| #[trigger] ranges@.contains_key(k) ==> ranges@[k] == before[k],
            covered(before).union(new) == covered(ranges@).union(
                span(merged_start as int, merged_end as int),
            ),
            hit.finite(),
            hit.len() == overlap,
            forall|x: int| #[trigger]
                hit.contains(x) <==> new.contains(x) && exists|j: int|
                    0 <= j < i && (#[trigger] entries[j]).0 <= x < entries[j].1,
            overlap <= end - start,
        decreases entries.len() - i,
    {
        let rs: u64 = entries[i].0;
        let re: u64 = entries[i].1;
        let ghost ranges0 = ranges@;
        let ghost hit0 = hit;
        assert(before.contains_key(rs));
        if re >= start {
            let overlap_start: u64 = if start > rs {
                start
            } else {
                rs
            };
            let overlap_end: u64 = if end < re {
                end
            } else {
                re
            };
            proof {
                let piece = span(overlap_start as int, overlap_end as int);
                hit = hit0.union(piece);
                if overlap_end > overlap_start {
                    vstd::set_lib::lemma_int_range(overlap_start as int, overlap_end as int);
                    assert(hit0.disjoint(piece)) by {
                        assert forall|x: int| hit0.contains(x) implies !piece.contains(x) by {
                            let j = choose|j: int|
                                0 <= j < i && (#[trigger] entries[j]).0 <= x < entries[j].1;
                            assert(before.contains_key(entries[j].0));
                            assert(entries[j].0 < entries[i as int].0);
                        }
                    }
                    vstd::set_lib::lemma_set_disjoint_lens(hit0, piece);
                } else {
                    assert(hit =~= hit0);
                }
                assert(hit.subset_of(new));
                vstd::set_lib::lemma_len_subset(hit, new);
            }
            if overlap_end > overlap_start {
                overlap = overlap + (overlap_end - overlap_start);
            }
            let ghost (ms0, me0) = (merged_start, merged_end);
            if rs < merged_start {
                merged_start = rs;
            }
            if re > merged_end {
                merged_end = re;
            }
            ranges.remove(&rs);
            proof {
                assert(ranges@ == ranges0.remove(rs));
                assert(covered(ranges0).union(span(ms0 as int, me0 as int)) =~= covered(
                    ranges@,
                ).union(span(merged_start as int, merged_end as int))) by {
                    assert(ranges0.contains_key(rs) && ranges0[rs] == re);
                    assert forall|x: int| covered(ranges0).contains(x) implies covered(
                        ranges@,
                    ).contains(x) || rs <= x < re by {
                        let k = choose|k: u64| #[trigger]
                            ranges0.contains_key(k) && k <= x < ranges0[k];
                        if k != rs {
                            assert(ranges@.contains_key(k));
                        }
                    }
                    assert forall|x: int| covered(ranges@).contains(x) implies covered(
                        ranges0,
                    ).contains(x) by {
                        let k = choose|k: u64| #[trigger]
                            ranges@.contains_key(k) && k <= x < ranges@[k];
                        assert(ranges0.contains_key(k));
                    }
                    assert forall|x: int| rs <= x < re implies covered(ranges0).contains(x) by {
                        assert(ranges0.contains_key(rs));
                    }
                }
            }
        }
        proof {
            assert forall|x: int| #[trigger]
                hit.contains(x) <==> new.contains(x) && exists|j: int|
                    0 <= j < i + 1 && (#[trigger] entries[j]).0 <= x < entries[j].1 by {
                if hit0.contains(x) {
                    let j = choose|j: int|
                        0 <= j < i && (#[trigger] entries[j]).0 <= x < entries[j].1;
                    assert(0 <= j < i + 1);
                }
                if new.contains(x) && rs <= x < re {
                    assert(entries[i as int].0 <= x < entries[i as int].1);
                }
            }
            assert forall|k: u64| #[trigger]
                ranges@.contains_key(k) <==> before.contains_key(k) && (before[k] < start
                    || forall|j: int| 0 <= j < i + 1 ==> (#[trigger] entries[j]).0 != k) by {
                if k == rs {
                    assert(entries[i as int].0 == k);
                }
            }
        }
        i = i + 1;
    }
    proof {
        assert forall|k: u64| #[trigger] ranges@.contains_key(k) implies (before[k] < merged_start
            || merged_end < k) by {
            assert(entries@.contains((k, before[k])));
            let j = choose|j: int| 0 <= j < entries@.len() && entries@[j] == (k, before[k]);
            if before[k] >= start {
                assert(j >= i);
                assert(entries[j].0 > end);
            }
        }
        assert(hit =~= new.intersect(covered(before))) by {
            assert forall|x: int| new.contains(x) && covered(before).contains(x) implies hit.contains(
                x,
            ) by {
                let k = choose|k: u64| #[trigger] before.contains_key(k) && k <= x < before[k];
                assert(entries@.contains((k, before[k])));
                let j = choose|j: int| 0 <= j < entries@.len() && entries@[j] == (k, before[k]);
                assert(j < i) by {
                    if j >= i {
                        assert(entries[j].0 >= entries[i as int].0);
                    }
                }
            }
            assert forall|x: int| hit.contains(x) implies covered(before).contains(x) by {
                let j = choose|j: int| 0 <= j < i && (#[trigger] entries[j]).0 <= x < entries[j].1;
                assert(before.contains_key(entries[j].0));
            }
        }
        let fresh = new.difference(covered(before));
        assert(new =~= hit.union(fresh));
        assert(hit.disjoint(fresh));
        vstd::set_lib::lemma_len_subset(fresh, new);
        vstd::set_lib::lemma_set_disjoint_lens(hit, fresh);
    }
    let ghost rest = ranges@;
    ranges.insert(merged_start, merged_end);
    proof {
        let melted = covered(rest).union(span(merged_start as int, merged_end as int));
        assert(melted == covered(before).union(new));
        assert forall|x: int| #[trigger] covered(ranges@).contains(x) <==> melted.contains(x) by {
            if covered(ranges@).contains(x) {
                let k = choose|k: u64| #[trigger] ranges@.contains_key(k) && k <= x < ranges@[k];
                if k != merged_start {
                    assert(rest.contains_key(k));
                }
            }
            if covered(rest).contains(x) {
                let k = choose|k: u64| #[trigger] rest.contains_key(k) && k <= x < rest[k];
                assert(ranges@.contains_key(k));
            }
            if merged_start <= x < merged_end {
                assert(ranges@.contains_key(merged_start));
            }
        }
        assert(covered(ranges@) =~= melted);
    }
    original_len - overlap
}

/// Two offsets less than one turn apart share a place only if they are equal.
proof fn lemma_same_place(a: int, b: int, cap: int)
    requires
        0 < cap,
        -cap < a - b < cap,
    ensures
        a % cap == b % cap <==> a == b,
{
    if a > b {
        lemma_wrap(b, a - b, cap);
    } else {
        lemma_wrap(a, b - a, cap);
    }
}

/// The byte at an offset after data was laid down, where nothing a turn away
/// from that offset was written.
pub proof fn lemma_laid_down_at(ring: Seq<u8>, offset: int, data: Seq<u8>, x: int)
    requires
        ring.len() > 0,
        x - ring.len() < offset,
        offset + data.len() <= x + ring.len(),
    ensures
        laid_down(ring, offset, data).len() == ring.len(),
        laid_down(ring, offset, data)[x % (ring.len() as int)] == if offset <= x < offset
            + data.len() {
            data[x - offset]
        } else {
            ring[x % (ring.len() as int)]
        },
    decreases data.len(),
{
    if data.len() > 0 {
        let cap = ring.len() as int;
        lemma_laid_down_at(ring, offset, data.drop_last(), x);
        lemma_same_place(offset + data.len() - 1, x, cap);
        lemma_wrap(x, 0, cap);
        lemma_wrap(offset + data.len() - 1, 0, cap);
    }
}

/// Reading gives back what was written.
///
/// The stretch from `head` to `end` that is read after a write holds the written
/// bytes at their offsets, and elsewhere what it held before. The write has to
/// fit the window, and must not reach so far below `head` that it wraps onto
/// bytes waiting to be read.
pub proof fn law_read_returns_what_was_written(
    ring: Seq<u8>,
    offset: int,
    data: Seq<u8>,
    head: int,
    end: int,
)
    requires
        ring.len() > 0,
        head <= end <= head + ring.len(),
        offset + data.len() <= head + ring.len(),
        end <= offset + ring.len(),
    ensures
        forall|x: int|
            head <= x < end ==> #[trigger] ring_slice(
                laid_down(ring, offset, data),
                head,
                end,
            )[x - head] == if offset <= x < offset + data.len() {
                data[x - offset]
            } else {
                ring_slice(ring, head, end)[x - head]
            },
{
    assert forall|x: int| head <= x < end implies #[trigger] ring_slice(
        laid_down(ring, offset, data),
        head,
        end,
    )[x - head] == if offset <= x < offset + data.len() {
        data[x - offset]
    } else {
        ring_slice(ring, head, end)[x - head]
    } by {
        lemma_laid_down_at(ring, offset, data, x);
    }
}

/// Writing the same data again adds nothing.
pub proof fn law_duplicate_write_adds_nothing(received: Set<int>, lo: int, hi: int)
    ensures
        span(lo, hi).difference(received.union(span(lo, hi))).len() == 0,
{
    assert(span(lo, hi).difference(received.union(span(lo, hi))) =~= Set::<int>::empty());
}

/// Two writes leave the same offsets received, whichever comes first.
pub proof fn law_order_of_arrival_does_not_matter(
    received: Set<int>,
    lo1: int,
    hi1: int,
    lo2: int,
    hi2: int,
)
    ensures
        received.union(span(lo1, hi1)).union(span(lo2, hi2)) == received.union(
            span(lo2, hi2),
        ).union(span(lo1, hi1)),
{
    assert(received.union(span(lo1, hi1)).union(span(lo2, hi2)) =~= received.union(
        span(lo2, hi2),
    ).union(span(lo1, hi1)));
}

} // verus!
