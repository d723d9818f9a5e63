//! Walking a map from isotope keys to counts in the order of its keys.
use std::collections::BTreeMap;
use vstd::prelude::*;
use vstd::std_specs::btree::increasing_seq;
use vstd::std_specs::cmp::OrdSpec;
use vstd::std_specs::iter::IteratorSpec;

verus! {

/// Whether `pairs` lists the entries of `counts`, each once, by rising key.
pub open spec fn lists(pairs: Seq<(u32, usize)>, counts: Map<u32, usize>) -> bool {
    &&& forall|i: int, j: int| 0 <= i < j < pairs.len() ==> pairs[i].0 < pairs[j].0
    &&& forall|i: int|
        0 <= i < pairs.len() ==> counts.contains_key(#[trigger] pairs[i].0) && counts[pairs[i].0]
            == pairs[i].1
    &&& forall|key: u32|
        counts.contains_key(key) ==> exists|i: int|
            0 <= i < pairs.len() && #[trigger] pairs[i].0 == key
}

/// The entries of the map, by rising key.
pub fn sorted_pairs(map: &BTreeMap<u32, usize>) -> (pairs: Vec<(u32, usize)>)
    ensures
        lists(pairs@, map@),
{
    let mut pairs: Vec<(u32, usize)> = Vec::new();
    let ghost start = map.iter();
    for entry in it: map.iter()
        invariant
            pairs@.len() == it.index(),
            forall|i: int|
                0 <= i < pairs@.len() ==> pairs@[i] == (*it.seq()[i].0, *it.seq()[i].1),
            it.seq() == start.remaining(),
    {
        let (key, count) = entry;
        pairs.push((*key, *count));
    }
    proof {
        let walked = start.remaining();
        let keys = walked.map_values(|entry: (&u32, &usize)| *entry.0);
        assert(increasing_seq(keys));
        assert forall|i: int, j: int| 0 <= i < j < pairs@.len() implies pairs@[i].0
            < pairs@[j].0 by {
            assert(keys[i].cmp_spec(&keys[j]) is Less);
        }
        assert forall|key: u32| map@.contains_key(key) implies exists|i: int|
            0 <= i < pairs@.len() && #[trigger] pairs@[i].0 == key by {
            assert(walked.contains((&key, &map@[key])));
            let i = choose|i: int| 0 <= i < walked.len() && walked[i] == (&key, &map@[key]);
            assert(pairs@[i].0 == key);
        }
    }
    pairs
}

} // verus!
