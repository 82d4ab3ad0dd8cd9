//! Ordered walks over maps that are keyed by an offset.

use std::collections::BTreeMap;
use vstd::prelude::*;

verus! {

broadcast use {
    vstd::std_specs::btree::group_btree_axioms,
};

/// `entries` lists the pairs of `m` in increasing order of their keys.
pub open spec fn lists_in_order<V>(m: Map<u64, V>, entries: Seq<(u64, V)>) -> bool {
    &&& entries.len() == m.dom().len()
    &&& forall|i: int| 0 <= i < entries.len() ==> m.contains_key((#[trigger] entries[i]).0)
        && m[entries[i].0] == entries[i].1
    &&& forall|i: int, j: int|
        0 <= i < j < entries.len() ==> (#[trigger] entries[i]).0 < (#[trigger] entries[j]).0
    &&& forall|k: u64| #[trigger] m.contains_key(k) ==> entries.contains((k, m[k]))
}

/// The entries of a map from offsets to offsets, in increasing order.
pub fn entries_in_order(m: &BTreeMap<u64, u64>) -> (r: Vec<(u64, u64)>)
    ensures
        lists_in_order(m@, r@),
{
    let mut r: Vec<(u64, u64)> = Vec::new();
    let iter = m.iter();
    let ghost s = vstd::std_specs::iter::IteratorSpec::remaining(&iter);
    assert(vstd::laws_cmp::obeys_cmp::<u64>());
    assert(vstd::std_specs::btree::key_obeys_cmp_spec::<u64>());
    proof {
        let ks = s.map_values(|kv: (&u64, &u64)| *kv.0);
        assert(vstd::std_specs::btree::increasing_seq(ks));
        assert forall|i: int, j: int| 0 <= i < j < s.len() implies *s[i].0 < *s[j].0 by {
            assert(ks[i] == *s[i].0 && ks[j] == *s[j].0);
            assert(vstd::std_specs::cmp::OrdSpec::cmp_spec(&ks[i], &ks[j]) is Less);
        }
    }
    for kv in it: iter
        invariant
            it.seq() == s,
            r.len() == it.index(),
            forall|i: int| 0 <= i < r.len() ==> r@[i] == (*s[i].0, *s[i].1),
    {
        r.push((*kv.0, *kv.1));
    }
    proof {
        assert(r.len() == s.len());
        assert forall|k: u64| #[trigger] m@.contains_key(k) implies r@.contains((k, m@[k])) by {
            assert(s.contains((&k, &m@[k])));
            let i = choose|i: int| 0 <= i < s.len() && s[i] == (&k, &m@[k]);
            assert(r@[i] == (k, m@[k]));
        }
    }
    r
}

/// The entry with the smallest key.
pub fn first_entry(m: &BTreeMap<u64, u64>) -> (r: Option<(u64, u64)>)
    ensures
        match r {
            None => m@ == Map::<u64, u64>::empty(),
            Some((k, v)) => m@.contains_key(k) && m@[k] == v && forall|other: u64| #[trigger]
                m@.contains_key(other) ==> k <= other,
        },
{
    let entries = entries_in_order(m);
    if entries.len() == 0 {
        assert(m@ =~= Map::<u64, u64>::empty()) by {
            assert forall|k: u64| !m@.contains_key(k) by {
                if m@.contains_key(k) {
                    assert(entries@.contains((k, m@[k])));
                }
            }
        }
        return None;
    }
    proof {
        assert forall|other: u64| #[trigger] m@.contains_key(other) implies entries@[0].0
            <= other by {
            assert(entries@.contains((other, m@[other])));
            let i = choose|i: int| 0 <= i < entries@.len() && entries@[i] == (other, m@[other]);
            assert(i == 0 || entries@[0].0 < entries@[i].0);
        }
    }
    Some(entries[0])
}

/// The keys of a map, in increasing order.
pub fn keys_in_order<V>(m: &BTreeMap<u64, V>) -> (r: Vec<u64>)
    ensures
        crate::unacked_window::lists_keys_below(m@, u64::MAX + 1, r@),
{
    let mut r: Vec<u64> = Vec::new();
    let iter = m.iter();
    let ghost s = vstd::std_specs::iter::IteratorSpec::remaining(&iter);
    proof {
        assert(vstd::laws_cmp::obeys_cmp::<u64>());
        assert(vstd::std_specs::btree::key_obeys_cmp_spec::<u64>());
        let ks = s.map_values(|kv: (&u64, &V)| *kv.0);
        assert(vstd::std_specs::btree::increasing_seq(ks));
        assert forall|i: int, j: int| 0 <= i < j < s.len() implies *s[i].0 < *s[j].0 by {
            assert(ks[i] == *s[i].0 && ks[j] == *s[j].0);
            assert(vstd::std_specs::cmp::OrdSpec::cmp_spec(&ks[i], &ks[j]) is Less);
        }
    }
    for kv in it: iter
        invariant
            it.seq() == s,
            r.len() == it.index(),
            forall|i: int| 0 <= i < r.len() ==> r@[i] == *s[i].0,
    {
        r.push(*kv.0);
    }
    proof {
        assert forall|k: u64| #[trigger] m@.contains_key(k) implies r@.contains(k) by {
            assert(s.contains((&k, &m@[k])));
            let i = choose|i: int| 0 <= i < s.len() && s[i] == (&k, &m@[k]);
            assert(r@[i] == k);
        }
        assert forall|i: int| 0 <= i < r@.len() implies m@.contains_key(#[trigger] r@[i]) by {
            assert(m@.contains_key(*s[i].0));
        }
    }
    r
}

/// The key at place `i`, or `limit` after the last.
pub open spec fn next_key(keys: Seq<u64>, i: int, limit: int) -> int {
    if i < keys.len() {
        keys[i] as int
    } else {
        limit
    }
}

/// No key lies between one listed key and the next.
pub proof fn lemma_no_key_between<V>(m: Map<u64, V>, limit: int, keys: Seq<u64>, i: int)
    requires
        crate::unacked_window::lists_keys_below(m, limit, keys),
        0 <= i < keys.len(),
    ensures
        keys[i] < next_key(keys, i + 1, limit),
        forall|k: u64|
            keys[i] < k < next_key(keys, i + 1, limit) ==> !#[trigger] m.contains_key(k),
{
    assert forall|k: u64| keys[i] < k < next_key(keys, i + 1, limit) implies !#[trigger] m.contains_key(
        k,
    ) by {
        if m.contains_key(k) {
            assert(keys.contains(k));
            let j = choose|j: int| 0 <= j < keys.len() && keys[j] == k;
            if j > i + 1 {
                assert(keys[i + 1] < keys[j]);
            } else if j < i {
                assert(keys[j] < keys[i]);
            }
        }
    }
}

} // verus!
