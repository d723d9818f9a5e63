//! What pairs add up to does not depend on their order.
use crate::counter::{accumulated, count_in, rendered};
use crate::table::Rows;
use vstd::prelude::*;
use vstd::seq_lib::{to_multiset_build, to_multiset_contains, to_multiset_len, to_multiset_remove};

verus! {

/// What one pair gives the isotope with key `key`: its count, if it is a
/// pair of that isotope.
pub open spec fn share(pair: (u32, usize), key: u32) -> nat {
    if pair.0 == key {
        pair.1 as nat
    } else {
        0
    }
}

/// How many atoms `pairs` give the isotope with key `key`, all told and
/// without a limit.
pub open spec fn total(pairs: Seq<(u32, usize)>, key: u32) -> nat
    decreases pairs.len(),
{
    if pairs.len() == 0 {
        0
    } else {
        total(pairs.drop_last(), key) + share(pairs.last(), key)
    }
}

/// A number held at the largest count where it passes it.
pub open spec fn capped(n: nat) -> usize {
    if n > usize::MAX {
        usize::MAX
    } else {
        n as usize
    }
}

/// What pairs add up to for one isotope is the total of its pairs, held at
/// the largest count; the isotope occurs exactly when that total is not
/// zero.
pub proof fn lemma_accumulated_total(pairs: Seq<(u32, usize)>, key: u32)
    ensures
        count_in(accumulated(pairs), key) == capped(total(pairs, key)),
        accumulated(pairs).contains_key(key) == (total(pairs, key) > 0),
    decreases pairs.len(),
{
    if pairs.len() > 0 {
        lemma_accumulated_total(pairs.drop_last(), key);
    }
}

/// Taking a pair out of the pairs takes its share out of the total.
pub proof fn lemma_total_remove(pairs: Seq<(u32, usize)>, i: int, key: u32)
    requires
        0 <= i < pairs.len(),
    ensures
        total(pairs, key) == total(pairs.remove(i), key) + share(pairs[i], key),
    decreases pairs.len(),
{
    if i == pairs.len() - 1 {
        assert(pairs.remove(i) =~= pairs.drop_last());
    } else {
        lemma_total_remove(pairs.drop_last(), i, key);
        assert(pairs.remove(i).drop_last() =~= pairs.drop_last().remove(i));
        assert(pairs.remove(i).last() == pairs.last());
    }
}

/// The total of an isotope is the same for pairs that hold the same pairs
/// equally often.
pub proof fn lemma_total_permutation(a: Seq<(u32, usize)>, b: Seq<(u32, usize)>, key: u32)
    requires
        a.to_multiset() == b.to_multiset(),
    ensures
        total(a, key) == total(b, key),
    decreases a.len(),
{
    to_multiset_len(a);
    to_multiset_len(b);
    if a.len() > 0 {
        let x = a.last();
        let rest = a.drop_last();
        assert(rest.push(x) =~= a);
        to_multiset_build(rest, x);
        to_multiset_contains(b, x);
        assert(a.to_multiset().count(x) > 0);
        let i = choose|i: int| 0 <= i < b.len() && b[i] == x;
        to_multiset_remove(b, i);
        assert(rest.to_multiset() =~= b.remove(i).to_multiset());
        lemma_total_permutation(rest, b.remove(i), key);
        lemma_total_remove(b, i, key);
    }
}

/// Merging the same pairs in any order yields the same counts: pairs that
/// hold the same isotopes with the same counts equally often add up to equal
/// counts, whatever their order.
pub proof fn law_accumulation_order(a: Seq<(u32, usize)>, b: Seq<(u32, usize)>)
    requires
        a.to_multiset() == b.to_multiset(),
    ensures
        accumulated(a) == accumulated(b),
{
    let x = accumulated(a);
    let y = accumulated(b);
    assert forall|key: u32| #[trigger] x.dom().contains(key) == y.dom().contains(key) by {
        lemma_accumulated_total(a, key);
        lemma_accumulated_total(b, key);
        lemma_total_permutation(a, b, key);
    }
    assert forall|key: u32| x.dom().contains(key) implies #[trigger] x[key] == y[key] by {
        lemma_accumulated_total(a, key);
        lemma_accumulated_total(b, key);
        lemma_total_permutation(a, b, key);
    }
    assert(x.dom() =~= y.dom());
    assert(accumulated(a) =~= accumulated(b));
}

/// The formula of what pairs add up to does not depend on their order.
pub proof fn law_rendering_order(a: Seq<(u32, usize)>, b: Seq<(u32, usize)>, rows: Rows)
    requires
        a.to_multiset() == b.to_multiset(),
    ensures
        rendered(accumulated(a), rows) == rendered(accumulated(b), rows),
{
    law_accumulation_order(a, b);
}

} // verus!
