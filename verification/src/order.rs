//! Walking the ordered collections of the standard library in their order.
use vstd::prelude::*;
use std::collections::BTreeMap;
use std::collections::BTreeSet;
use vstd::std_specs::btree::increasing_seq;
use vstd::std_specs::btree::spec_btree_keys_iter;
use vstd::std_specs::btree::spec_keys_iter;
use vstd::std_specs::cmp::OrdSpec;
use vstd::std_specs::iter::IteratorSpec;

verus! {

/// Each slot is smaller than every later one.
pub open spec fn ascending(s: Seq<usize>) -> bool {
    forall|i: int, j: int| 0 <= i < j < s.len() ==> s[i] < s[j]
}

/// Each key is smaller than every later one.
pub open spec fn keys_ascending(s: Seq<u64>) -> bool {
    forall|i: int, j: int| 0 <= i < j < s.len() ==> s[i] < s[j]
}

/// The slots of `set`, from the lowest to the highest.
pub fn sorted_slots(set: &BTreeSet<usize>) -> (out: Vec<usize>)
    ensures
        ascending(out@),
        out@.to_set() == set@,
{
    broadcast use vstd::std_specs::btree::group_btree_axioms;
    broadcast use vstd::laws_cmp::group_laws_cmp;

    let mut out: Vec<usize> = Vec::new();
    let ghost full = spec_btree_keys_iter(set).remaining();
    for slot in it: set.iter()
        invariant
            out@.len() == it.index(),
            forall|i: int| 0 <= i < out@.len() ==> out@[i] == *it.seq()[i],
            it.seq() == full,
    {
        out.push(*slot);
    }
    proof {
        assert(out@ =~= full.unref());
        assert forall|i: int, j: int| 0 <= i < j < out@.len() implies out@[i] < out@[j] by {
            assert((&full[i]).cmp_spec(&full[j]) is Less);
        }
    }
    out
}

/// The keys of `map`, from the lowest to the highest.
pub fn sorted_keys<V>(map: &BTreeMap<u64, V>) -> (out: Vec<u64>)
    ensures
        keys_ascending(out@),
        out@.to_set() == map@.dom(),
{
    broadcast use vstd::std_specs::btree::group_btree_axioms;
    broadcast use vstd::laws_cmp::group_laws_cmp;

    let mut out: Vec<u64> = Vec::new();
    let ghost full = spec_keys_iter(map).remaining();
    for key in it: map.keys()
        invariant
            out@.len() == it.index(),
            forall|i: int| 0 <= i < out@.len() ==> out@[i] == *it.seq()[i],
            it.seq() == full,
    {
        out.push(*key);
    }
    proof {
        assert(out@ =~= full.unref());
        assert forall|i: int, j: int| 0 <= i < j < out@.len() implies out@[i] < out@[j] by {
            assert((&full[i]).cmp_spec(&full[j]) is Less);
        }
    }
    out
}

} // verus!
