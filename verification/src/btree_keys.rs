//! Walking the keys of a `BTreeMap` with integer keys in increasing order.
use vstd::prelude::*;
use std::collections::BTreeMap;
use vstd::std_specs::iter::IteratorSpec;
use vstd::std_specs::cmp::OrdSpec;

verus! {

/// `a` is ordered before `b` by the type's total order.
spec fn key_before<K: Ord>(a: K, b: K) -> bool {
    a.cmp_spec(&b) is Less
}

/// Every key of the map in increasing order.
pub fn sorted_keys<V>(m: &BTreeMap<u64, V>) -> (ks: Vec<u64>)
    ensures
        ks@.to_set() == m@.dom(),
        forall|i: int, j: int| 0 <= i < j < ks@.len() ==> ks@[i] < ks@[j],
{
    let mut ks: Vec<u64> = Vec::new();
    let ghost all = vstd::std_specs::btree::spec_keys_iter(m).remaining();
    for k in it: m.keys()
        invariant
            ks@ == it.seq().unref().take(it.index()),
    {
        ks.push(*k);
        assert(ks@ =~= it.seq().unref().take(it.index() + 1));
    }
    proof {
        assert(ks@ =~= all.unref());
        assert(vstd::std_specs::btree::increasing_seq(all));
        assert(vstd::laws_cmp::obeys_cmp::<&u64>());
        assert forall|i: int, j: int| 0 <= i < j < ks@.len() implies ks@[i] < ks@[j] by {
            assert(key_before::<&u64>(all[i], all[j]));
        }
    }
    ks
}

} // verus!
