//! Unacknowledged packets by packet number.

use crate::unacked::UnackedPacket;
use std::collections::VecDeque;
use vstd::prelude::*;

verus! {

broadcast use vstd::std_specs::vecdeque::group_vec_dequeue_axioms;

/// A sliding window for tracking unacknowledged packets, with access by packet
/// number in constant time.
pub struct UnackedWindow {
    pub base_pn: u64,
    pub deque: VecDeque<Option<UnackedPacket>>,
    pub len: usize,
}

/// The packets that a row of slots holds when the first slot belongs to `base`.
pub open spec fn slots_map(base: u64, slots: Seq<Option<UnackedPacket>>) -> Map<
    u64,
    UnackedPacket,
> {
    Map::new(
        |pn: u64| base <= pn < base + slots.len() && slots[pn - base] is Some,
        |pn: u64| slots[pn - base]->0,
    )
}

/// `keys` lists the keys of `m` below `limit` in increasing order.
pub open spec fn lists_keys_below<V>(m: Map<u64, V>, limit: int, keys: Seq<u64>) -> bool {
    &&& forall|i: int| 0 <= i < keys.len() ==> m.contains_key(#[trigger] keys[i]) && keys[i]
        < limit
    &&& forall|i: int, j: int|
        0 <= i < j < keys.len() ==> (#[trigger] keys[i]) < (#[trigger] keys[j])
    &&& forall|k: u64| #[trigger] m.contains_key(k) && k < limit ==> keys.contains(k)
}

impl View for UnackedWindow {
    type V = Map<u64, UnackedPacket>;

    open spec fn view(&self) -> Map<u64, UnackedPacket> {
        slots_map(self.base_pn, self.deque@)
    }
}

impl UnackedWindow {
    /// The counter counts the packets, every slot has a number, and the first
    /// slot is in use.
    pub open spec fn wf(&self) -> bool {
        &&& self.base_pn + self.deque@.len() <= u64::MAX + 1
        &&& self.deque@.len() > 0 ==> self.deque@[0] is Some
        &&& self@.dom().finite()
        &&& self@.dom().len() == self.len
    }

    /// An empty window.
    pub fn new() -> (r: Self)
        ensures
            r.wf(),
            r@ == Map::<u64, UnackedPacket>::empty(),
            r.base_pn == 0,
    {
        let r = UnackedWindow { base_pn: 0, deque: VecDeque::new(), len: 0 };
        assert(r@ =~= Map::<u64, UnackedPacket>::empty());
        assert(r@.dom() =~= Set::<u64>::empty());
        r
    }

    /// Keeps `packet` under `pn`. A number below the lowest one in the window
    /// is too late and is ignored.
    pub fn insert(&mut self, pn: u64, packet: UnackedPacket)
        requires
            old(self).wf(),
            old(self)@.dom().len() > 0 && pn >= old(self).base_pn ==> pn - old(self).base_pn
                < usize::MAX,
        ensures
            final(self).wf(),
            old(self)@.dom().len() > 0 ==> final(self).base_pn == old(self).base_pn,
            old(self)@.dom().len() == 0 ==> final(self).base_pn == pn,
            old(self)@.dom().len() == 0 || pn >= old(self).base_pn ==> final(self)@ == old(
                self,
            )@.insert(pn, packet),
            old(self)@.dom().len() > 0 && pn < old(self).base_pn ==> final(self)@ == old(self)@,
    {
        let ghost before = self@;
        proof {
            lemma_slots(self.base_pn, self.deque@);
        }
        if self.deque.len() == 0 {
            assert(before =~= Map::<u64, UnackedPacket>::empty());
            assert(before.dom() =~= Set::<u64>::empty());
            self.base_pn = pn;
            self.deque.push_back(Some(packet));
            self.len = 1;
            assert(self@ =~= before.insert(pn, packet));
            assert(self@.dom() =~= before.dom().insert(pn));
            return ;
        }
        assert(before.dom().len() > 0) by {
            assert(before.dom().contains(self.base_pn));
            vstd::set_lib::lemma_set_empty_equivalency_len(before.dom());
        }
        if pn < self.base_pn {
            return ;
        }
        let idx: usize = (pn - self.base_pn) as usize;
        while self.deque.len() <= idx
            invariant
                idx < usize::MAX,
                idx == pn - self.base_pn,
                self.base_pn == old(self).base_pn,
                self.base_pn + self.deque@.len() <= u64::MAX + 1,
                self.deque@.len() > 0,
                self.deque@[0] is Some,
                self@ == before,
                self.len == old(self).len,
            decreases idx + 1 - self.deque@.len(),
        {
            self.deque.push_back(None);
            assert(self@ =~= before);
        }
        let ghost slots = self.deque@;
        let was = self.deque.remove(idx);
        let fresh = match &was {
            Some(Some(_)) => false,
            _ => true,
        };
        self.deque.insert(idx, Some(packet));
        proof {
            assert(self.deque@ =~= slots.update(idx as int, Some(packet)));
            lemma_slots(self.base_pn, self.deque@);
            assert(self@ =~= before.insert(pn, packet));
            assert(self@.dom() =~= before.dom().insert(pn));
        }
        if fresh {
            self.len = self.len + 1;
        }
    }

    /// Takes the packet with number `pn` out of the window.
    pub fn remove(&mut self, pn: u64) -> (r: Option<UnackedPacket>)
        requires
            old(self).wf(),
        ensures
            final(self).wf(),
            final(self)@ == old(self)@.remove(pn),
            r == if old(self)@.contains_key(pn) {
                Some(old(self)@[pn])
            } else {
                None
            },
    {
        let ghost before = self@;
        proof {
            lemma_slots(self.base_pn, self.deque@);
        }
        if pn < self.base_pn || pn - self.base_pn >= self.deque.len() as u64 {
            assert(before.remove(pn) =~= before);
            return None;
        }
        let idx: usize = (pn - self.base_pn) as usize;
        let ghost slots = self.deque@;
        let taken = match self.deque.remove(idx) {
            Some(slot) => slot,
            None => None,
        };
        self.deque.insert(idx, None);
        proof {
            assert(self.deque@ =~= slots.update(idx as int, None));
            assert(self@ =~= before.remove(pn));
            assert(self@.dom() =~= before.dom().remove(pn));
        }
        if taken.is_some() {
            assert(before.contains_key(pn));
            assert(before.dom().len() > 0) by {
                vstd::set_lib::lemma_set_empty_equivalency_len(before.dom());
            }
            self.len = self.len - 1;
        }
        let mut go_on = true;
        while go_on && self.deque.len() > 0
            invariant
                self.base_pn + self.deque@.len() <= u64::MAX + 1,
                self@ == before.remove(pn),
                self.len == self@.dom().len(),
                self@.dom().finite(),
                !go_on ==> self.deque@.len() > 0 && self.deque@[0] is Some,
            decreases self.deque@.len() + if go_on {
                1int
            } else {
                0int
            },
        {
            let empty = match &self.deque[0] {
                None => true,
                Some(_) => false,
            };
            if empty {
                let ghost all = self.deque@;
                let ghost base0 = self.base_pn;
                self.deque.pop_front();
                if self.base_pn == u64::MAX {
                    // The one slot there can be for the highest number has just gone.
                    assert(self.deque@.len() == 0);
                    self.base_pn = 0;
                } else {
                    self.base_pn = self.base_pn + 1;
                }
                assert forall|k: u64| slots_map(base0, all).contains_key(k)
                    <==> self@.contains_key(k) by {
                    if slots_map(base0, all).contains_key(k) {
                        assert(k != base0);
                        assert(self.deque@[k - self.base_pn] == all[k - base0]);
                    }
                    if self@.contains_key(k) {
                        assert(self.deque@[k - self.base_pn] == all[k - base0]);
                    }
                }
                assert(self@ =~= slots_map(base0, all));
            } else {
                go_on = false;
            }
        }
        taken
    }

    /// Forgets every packet.
    pub fn clear(&mut self)
        ensures
            final(self).wf(),
            final(self)@ == Map::<u64, UnackedPacket>::empty(),
            final(self).base_pn == 0,
    {
        self.deque.clear();
        self.len = 0;
        self.base_pn = 0;
        assert(self@ =~= Map::<u64, UnackedPacket>::empty());
        assert(self@.dom() =~= Set::<u64>::empty());
    }

    /// How many packets are kept.
    pub fn len(&self) -> (r: usize)
        requires
            self.wf(),
        ensures
            r == self@.dom().len(),
    {
        self.len
    }

    /// Whether no packet is kept.
    pub fn is_empty(&self) -> (r: bool)
        requires
            self.wf(),
        ensures
            r <==> self@ == Map::<u64, UnackedPacket>::empty(),
    {
        proof {
            vstd::set_lib::lemma_set_empty_equivalency_len(self@.dom());
            if self@.dom().len() == 0 {
                assert(self@ =~= Map::<u64, UnackedPacket>::empty());
            }
        }
        self.len == 0
    }

    /// The packet with number `pn`.
    pub fn get(&self, pn: u64) -> (r: Option<&UnackedPacket>)
        ensures
            match r {
                Some(p) => self@.contains_key(pn) && *p == self@[pn],
                None => !self@.contains_key(pn),
            },
    {
        if pn < self.base_pn || pn - self.base_pn >= self.deque.len() as u64 {
            return None;
        }
        match &self.deque[(pn - self.base_pn) as usize] {
            Some(p) => Some(p),
            None => None,
        }
    }

    /// The numbers of the packets below `limit`, in increasing order.
    pub fn keys_below(&self, limit: u64) -> (keys: Vec<u64>)
        requires
            self.wf(),
        ensures
            lists_keys_below(self@, limit as int, keys@),
    {
        let mut keys: Vec<u64> = Vec::new();
        let mut i: usize = 0;
        while i < self.deque.len() && (i as u64) < limit.saturating_sub(self.base_pn)
            invariant
                self.wf(),
                i <= self.deque@.len(),
                forall|j: int|
                    0 <= j < keys@.len() ==> self@.contains_key(#[trigger] keys@[j]) && keys@[j]
                        < limit && keys@[j] < self.base_pn + i,
                forall|j: int, k: int|
                    0 <= j < k < keys@.len() ==> (#[trigger] keys@[j]) < (#[trigger] keys@[k]),
                forall|k: u64| #[trigger]
                    self@.contains_key(k) && k < limit && k < self.base_pn + i ==> keys@.contains(
                        k,
                    ),
            decreases self.deque@.len() - i,
        {
            let pn: u64 = self.base_pn + i as u64;
            let used = match &self.deque[i] {
                Some(_) => true,
                None => false,
            };
            let ghost before = keys@;
            if used {
                keys.push(pn);
            }
            proof {
                assert forall|k: u64| #[trigger]
                    self@.contains_key(k) && k < limit && k < self.base_pn + i
                        + 1 implies keys@.contains(k) by {
                    if k == pn {
                        assert(keys@[before.len() as int] == pn);
                    } else {
                        assert(before.contains(k));
                        let j = choose|j: int| 0 <= j < before.len() && before[j] == k;
                        assert(keys@[j] == k);
                    }
                }
            }
            i = i + 1;
        }
        keys
    }

    /// The numbers of all packets, in increasing order.
    pub fn keys(&self) -> (keys: Vec<u64>)
        requires
            self.wf(),
        ensures
            lists_keys_below(self@, u64::MAX + 1, keys@),
    {
        let mut keys = self.keys_below(u64::MAX);
        let last = self.get(u64::MAX).is_some();
        let ghost before = keys@;
        if last {
            keys.push(u64::MAX);
        }
        proof {
            assert forall|k: u64| #[trigger] self@.contains_key(k) implies keys@.contains(k) by {
                if k == u64::MAX {
                    assert(keys@[before.len() as int] == k);
                } else {
                    assert(before.contains(k));
                    let j = choose|j: int| 0 <= j < before.len() && before[j] == k;
                    assert(keys@[j] == k);
                }
            }
        }
        keys
    }

    /// The packets with their numbers, in increasing order.
    pub fn iter(&self) -> (r: Vec<(u64, &UnackedPacket)>)
        requires
            self.wf(),
        ensures
            lists_keys_below(
                self@,
                u64::MAX + 1,
                r@.map_values(|e: (u64, &UnackedPacket)| e.0),
            ),
            forall|i: int| 0 <= i < r@.len() ==> *(#[trigger] r@[i]).1 == self@[r@[i].0],
    {
        let keys = self.keys();
        let mut r: Vec<(u64, &UnackedPacket)> = Vec::new();
        let mut i: usize = 0;
        while i < keys.len()
            invariant
                i <= keys@.len(),
                lists_keys_below(self@, u64::MAX + 1, keys@),
                r@.len() == i,
                forall|j: int|
                    0 <= j < i ==> (#[trigger] r@[j]).0 == keys@[j] && *r@[j].1
                        == self@[keys@[j]],
            decreases keys@.len() - i,
        {
            let pn: u64 = keys[i];
            if let Some(p) = self.get(pn) {
                r.push((pn, p));
            }
            i = i + 1;
        }
        assert(r@.map_values(|e: (u64, &UnackedPacket)| e.0) =~= keys@);
        r
    }

    /// The packet with number `pn`, to be changed in place.
    pub fn get_mut(&mut self, pn: u64) -> (r: Option<&mut UnackedPacket>)
        requires
            old(self).wf(),
        ensures
            r is Some <==> old(self)@.contains_key(pn),
            r is None ==> *final(self) == *old(self),
            r matches Some(p) ==> *p == old(self)@[pn] && final(self)@ == old(self)@.insert(
                pn,
                *final(p),
            ) && final(self).wf(),
    {
        if pn < self.base_pn || pn - self.base_pn >= self.deque.len() as u64 || self.get(
            pn,
        ).is_none() {
            return None;
        }
        proof {
            lemma_slot_changed(self.base_pn, self.deque@, pn);
        }
        match slot_mut(&mut self.deque, (pn - self.base_pn) as usize) {
            Some(p) => Some(p),
            None => None,
        }
    }

    /// The lowest packet number in the window.
    pub fn lowest(&self) -> (r: Option<u64>)
        requires
            self.wf(),
        ensures
            match r {
                Some(pn) => self@.contains_key(pn) && forall|k: u64| #[trigger]
                    self@.contains_key(k) ==> pn <= k,
                None => self@ == Map::<u64, UnackedPacket>::empty(),
            },
    {
        if self.deque.len() == 0 {
            assert(self@ =~= Map::<u64, UnackedPacket>::empty());
            None
        } else {
            Some(self.base_pn)
        }
    }
}

/// A row of slots holds no more packets than it has slots.
proof fn lemma_slots(base: u64, slots: Seq<Option<UnackedPacket>>)
    requires
        base + slots.len() <= u64::MAX + 1,
    ensures
        slots_map(base, slots).dom().finite(),
        slots_map(base, slots).dom().len() <= slots.len(),
    decreases slots.len(),
{
    let all = slots_map(base, slots).dom();
    if slots.len() == 0 {
        assert(all =~= Set::<u64>::empty());
    } else {
        let fewer = slots_map(base, slots.drop_last()).dom();
        lemma_slots(base, slots.drop_last());
        let last = (base + slots.len() - 1) as u64;
        if slots.last() is Some {
            assert(all =~= fewer.insert(last));
        } else {
            assert(all =~= fewer);
        }
    }
}

/// What was put in is what comes out, once.
pub proof fn law_insert_then_remove(m: Map<u64, UnackedPacket>, pn: u64, packet: UnackedPacket)
    ensures
        m.insert(pn, packet)[pn] == packet,
        !m.insert(pn, packet).remove(pn).contains_key(pn),
        !m.contains_key(pn) ==> m.insert(pn, packet).remove(pn) == m,
{
    assert(!m.contains_key(pn) ==> m.insert(pn, packet).remove(pn) =~= m);
}

/// Changing a packet in its slot changes it in the window, and nothing else.
proof fn lemma_slot_changed(base: u64, slots: Seq<Option<UnackedPacket>>, pn: u64)
    requires
        base <= pn < base + slots.len(),
        slots[pn - base] is Some,
    ensures
        forall|x: UnackedPacket| #[trigger]
            slots_map(base, slots.update(pn - base, Some(x))) == slots_map(base, slots).insert(
                pn,
                x,
            ),
        forall|x: UnackedPacket| #[trigger]
            slots_map(base, slots.update(pn - base, Some(x))).dom() == slots_map(base, slots).dom(),
{
    assert forall|x: UnackedPacket| #[trigger]
        slots_map(base, slots.update(pn - base, Some(x))) == slots_map(base, slots).insert(
            pn,
            x,
        ) by {
        assert(slots_map(base, slots.update(pn - base, Some(x))) =~= slots_map(base, slots).insert(
            pn,
            x,
        ));
    }
    assert forall|x: UnackedPacket| #[trigger]
        slots_map(base, slots.update(pn - base, Some(x))).dom() == slots_map(
            base,
            slots,
        ).dom() by {
        assert(slots_map(base, slots.update(pn - base, Some(x))).dom() =~= slots_map(
            base,
            slots,
        ).dom());
    }
}

/// `std::ops::IndexMut` of `std::collections::VecDeque`: the element at an index,
/// to be changed in place.
#[verifier::external_body]
fn slot_mut(deque: &mut VecDeque<Option<UnackedPacket>>, i: usize) -> (r: &mut Option<UnackedPacket>)
    requires
        i < old(deque)@.len(),
    ensures
        *r == old(deque)@[i as int],
        final(deque)@ == old(deque)@.update(i as int, *final(r)),
{
    &mut deque[i]
}

} // verus!
