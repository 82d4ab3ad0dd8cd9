//! Sums and counts over the entries of a map.

use std::collections::HashMap;
use vstd::prelude::*;

verus! {

broadcast use vstd::std_specs::hash::group_hash_axioms;

/// The sum of the values of a finite map.
pub open spec fn map_total(m: Map<u32, nat>) -> nat
    decreases m.dom().len(),
{
    if m.dom().finite() && m.dom().len() > 0 {
        let k = m.dom().choose();
        m[k] + map_total(m.remove(k))
    } else {
        0
    }
}

/// `n`, or the largest size if that does not fit.
pub open spec fn clamped(n: nat) -> usize {
    if n > usize::MAX {
        usize::MAX
    } else {
        n as usize
    }
}

/// Any entry can be split off from the sum.
pub proof fn lemma_map_total_remove(m: Map<u32, nat>, k: u32)
    requires
        m.dom().finite(),
        m.contains_key(k),
    ensures
        map_total(m) == m[k] + map_total(m.remove(k)),
    decreases m.dom().len(),
{
    let c = m.dom().choose();
    assert(m.dom().len() > 0) by {
        vstd::set_lib::lemma_set_empty_equivalency_len(m.dom());
    }
    if c != k {
        lemma_map_total_remove(m.remove(c), k);
        lemma_map_total_remove(m.remove(k), c);
        assert(m.remove(c).remove(k) =~= m.remove(k).remove(c));
    }
}

/// The sum over the entries whose keys stand in `ids`.
pub open spec fn listed_total(m: Map<u32, nat>, ids: Seq<u32>) -> nat
    decreases ids.len(),
{
    if ids.len() == 0 {
        0
    } else {
        listed_total(m, ids.drop_last()) + m[ids.last()]
    }
}

/// Adding up along a list of all keys gives the sum.
pub proof fn lemma_listed_total(m: Map<u32, nat>, ids: Seq<u32>)
    requires
        m.dom().finite(),
        ids.no_duplicates(),
        ids.to_set() == m.dom(),
    ensures
        listed_total(m, ids) == map_total(m),
    decreases ids.len(),
{
    if ids.len() == 0 {
        assert(m.dom() =~= Set::<u32>::empty());
    } else {
        let last = ids.last();
        let fewer = ids.drop_last();
        assert(ids.to_set().contains(last));
        lemma_map_total_remove(m, last);
        assert(fewer.to_set() =~= m.remove(last).dom()) by {
            assert forall|k: u32| fewer.to_set().contains(k) <==> m.remove(last).dom().contains(
                k,
            ) by {
                if fewer.contains(k) {
                    let i = choose|i: int| 0 <= i < fewer.len() && fewer[i] == k;
                    assert(ids[i] == k);
                    assert(ids.to_set().contains(k));
                }
                if m.remove(last).dom().contains(k) {
                    assert(ids.contains(k));
                    let i = choose|i: int| 0 <= i < ids.len() && ids[i] == k;
                    assert(fewer[i] == k);
                }
            }
        }
        lemma_listed_total(m.remove(last), fewer);
        lemma_listed_total_same(m, m.remove(last), fewer);
    }
}

proof fn lemma_listed_total_same(a: Map<u32, nat>, b: Map<u32, nat>, ids: Seq<u32>)
    requires
        forall|i: int| 0 <= i < ids.len() ==> a[#[trigger] ids[i]] == b[ids[i]],
    ensures
        listed_total(a, ids) == listed_total(b, ids),
    decreases ids.len(),
{
    if ids.len() > 0 {
        lemma_listed_total_same(a, b, ids.drop_last());
        assert(ids.last() == ids[ids.len() - 1]);
    }
}

/// The keys of a map, each once, in no particular order.
pub fn key_list<V>(m: &HashMap<u32, V>) -> (ids: Vec<u32>)
    ensures
        ids@.no_duplicates(),
        ids@.to_set() == m@.dom(),
        ids@.len() == m@.dom().len(),
{
    let mut ids: Vec<u32> = Vec::new();
    let keys = m.keys();
    let ghost s = vstd::std_specs::iter::IteratorSpec::remaining(&keys);
    for k in it: keys
        invariant
            it.seq() == s,
            ids.len() == it.index(),
            forall|i: int| 0 <= i < ids.len() ==> ids@[i] == *s[i],
    {
        ids.push(*k);
    }
    assert(ids@ =~= s.unref());
    ids
}

/// A size is told as it is, or as the largest one if it is larger. A sum is
/// nothing for no entry, and with every entry its value on top of the others.
pub proof fn law_totals_add_up(m: Map<u32, nat>, k: u32, v: nat, n: nat)
    requires
        m.dom().finite(),
    ensures
        n <= usize::MAX ==> clamped(n) == n,
        n > usize::MAX ==> clamped(n) == usize::MAX,
        map_total(Map::empty()) == 0,
        map_total(m.insert(k, v)) == v + map_total(m.remove(k)),
{
    assert(Map::<u32, nat>::empty().dom() =~= Set::<u32>::empty());
    lemma_map_total_remove(m.insert(k, v), k);
    assert(m.insert(k, v).remove(k) =~= m.remove(k));
}

/// The sum of `f` over the values of a finite map.
pub open spec fn packet_total<V>(m: Map<u64, V>, f: spec_fn(V) -> nat) -> nat
    decreases m.dom().len(),
{
    if m.dom().finite() && m.dom().len() > 0 {
        let k = m.dom().choose();
        f(m[k]) + packet_total(m.remove(k), f)
    } else {
        0
    }
}

/// A sum over packets is nothing for no packet, and with every packet its share
/// on top of the others.
pub proof fn law_packet_totals_are_sums<V>(m: Map<u64, V>, f: spec_fn(V) -> nat, pn: u64)
    requires
        m.dom().finite(),
    ensures
        packet_total(Map::<u64, V>::empty(), f) == 0,
        m.contains_key(pn) ==> packet_total(m, f) == f(m[pn]) + packet_total(m.remove(pn), f),
        !m.contains_key(pn) ==> packet_total(m.remove(pn), f) == packet_total(m, f),
    decreases m.dom().len(),
{
    assert(Map::<u64, V>::empty().dom() =~= Set::<u64>::empty());
    if m.contains_key(pn) {
        let c = m.dom().choose();
        assert(m.dom().len() > 0) by {
            vstd::set_lib::lemma_set_empty_equivalency_len(m.dom());
        }
        if c != pn {
            law_packet_totals_are_sums(m.remove(c), f, pn);
            law_packet_totals_are_sums(m.remove(pn), f, c);
            assert(m.remove(c).remove(pn) =~= m.remove(pn).remove(c));
        }
    } else {
        assert(m.remove(pn) =~= m);
    }
}

} // verus!
