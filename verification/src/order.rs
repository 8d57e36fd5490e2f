use vstd::prelude::*;
use std::collections::BTreeMap;
use vstd::std_specs::iter::IteratorSpec;
use vstd::std_specs::cmp::OrdSpec;

verus! {

broadcast use vstd::std_specs::btree::group_btree_axioms;

/// `ids` lists the set `dom`, each member once, in increasing order.
pub open spec fn enumerates(ids: Seq<u64>, dom: Set<u64>) -> bool {
    &&& ids.to_set() == dom
    &&& ids.len() == dom.len()
    &&& forall|i: int, j: int| 0 <= i < j < ids.len() ==> ids[i] < ids[j]
}

/// `u64` keys obey the ordering that the specifications of `BTreeMap` and
/// `BTreeSet` rest on.
pub proof fn lemma_u64_keys_are_ordered()
    ensures
        vstd::std_specs::btree::key_obeys_cmp_spec::<u64>(),
        vstd::laws_cmp::obeys_cmp::<u64>(),
{
    broadcast use vstd::laws_cmp::group_laws_cmp;
}

proof fn lemma_increasing_ids(keys: Seq<u64>)
    requires
        vstd::std_specs::btree::increasing_seq(keys),
    ensures
        forall|i: int, j: int| 0 <= i < j < keys.len() ==> keys[i] < keys[j],
{
    lemma_u64_keys_are_ordered();
    vstd::std_specs::btree::axiom_increasing_seq_meaning(keys);
    assert forall|i: int, j: int| 0 <= i < j < keys.len() implies keys[i] < keys[j] by {
        assert(keys[i].cmp_spec(&keys[j]) is Less);
    }
}

/// The keys of a map, in increasing order.
pub fn sorted_keys<V>(m: &BTreeMap<u64, V>) -> (ids: Vec<u64>)
    ensures
        enumerates(ids@, m@.dom()),
{
    let mut ids: Vec<u64> = Vec::new();
    proof {
        lemma_u64_keys_are_ordered();
    }
    let ghost entries = vstd::std_specs::btree::spec_btree_map_iter(m).remaining();
    let ghost keys = entries.map_values(|kv: (&u64, &V)| *kv.0);
    for kv in it: m.iter()
        invariant
            it.seq() == entries,
            keys == entries.map_values(|kv: (&u64, &V)| *kv.0),
            ids@.len() == it.index(),
            forall|i: int| 0 <= i < it.index() ==> ids@[i] == keys[i],
    {
        proof {
            assert(kv == entries[ids@.len() as int]);
        }
        ids.push(*kv.0);
    }
    assert(ids@ == keys);
    proof {
        lemma_increasing_ids(keys);
    }
    assert forall|k: u64| m@.dom().contains(k) implies ids@.contains(k) by {
        assert(entries.contains((&k, &m@[k])));
        let i = choose|i: int| 0 <= i < entries.len() && entries[i] == (&k, &m@[k]);
        assert(keys[i] == k);
    }
    assert(ids@.to_set() =~= m@.dom());
    ids
}

} // verus!
