//! The atom counter: how many atoms of each isotope a formula holds.
use crate::digits::{numeral, parse_count, push_numeral};
use crate::error::Error;
use crate::formula::{terms, tokenize, views, Term, Token};
use crate::isotope::Isotope;
use crate::ordered::{lists, sorted_pairs};
use crate::table::{lookup, symbol_of, Rows, Table};
use std::collections::BTreeMap;
use vstd::prelude::*;
use vstd::std_specs::cmp::PartialEqSpecImpl;
use vstd::string::*;

verus! {

/// What a counter holds: a count for the key of each isotope that occurs.
pub type Counts = Map<u32, usize>;

/// How many atoms of the isotope with key `key` are counted: none where the
/// isotope does not occur.
pub open spec fn count_in(counts: Counts, key: u32) -> usize {
    if counts.contains_key(key) {
        counts[key]
    } else {
        0
    }
}

/// What makes counts valid: an isotope that occurs is counted at least once.
pub open spec fn positive(counts: Counts) -> bool {
    forall|key: u32| counts.contains_key(key) ==> #[trigger] counts[key] > 0
}

/// The sum of two counts, held at the largest count where it would pass it.
pub open spec fn saturating_sum(a: usize, b: usize) -> usize {
    if a + b > usize::MAX {
        usize::MAX
    } else {
        (a + b) as usize
    }
}

/// The counts after `count` more atoms of the isotope with key `key`.
pub open spec fn merged(counts: Counts, key: u32, count: usize) -> Counts {
    if count == 0 {
        counts
    } else {
        counts.insert(key, saturating_sum(count_in(counts, key), count))
    }
}

/// The counts after merging `pairs`, one after the other, into `counts`.
pub open spec fn accumulated_onto(counts: Counts, pairs: Seq<(u32, usize)>) -> Counts
    decreases pairs.len(),
{
    if pairs.len() == 0 {
        counts
    } else {
        merged(accumulated_onto(counts, pairs.drop_last()), pairs.last().0, pairs.last().1)
    }
}

/// The counts that `pairs` add up to.
pub open spec fn accumulated(pairs: Seq<(u32, usize)>) -> Counts {
    accumulated_onto(Map::empty(), pairs)
}

/// Pairs of an isotope and a count, with the key in place of the isotope.
pub open spec fn keyed(pairs: Seq<(Isotope, usize)>) -> Seq<(u32, usize)> {
    pairs.map_values(|pair: (Isotope, usize)| (pair.0.key(), pair.1))
}

/// What one term of a formula contributes: the key of the isotope that its
/// symbol stands for, and its count. An unknown symbol is reported before a
/// malformed count.
pub open spec fn resolved(term: Term, rows: Rows) -> Result<(u32, usize), Error> {
    match lookup(rows, term.symbol) {
        None => Err(Error::UnknownSpecies),
        Some(isotope) => match term.count() {
            None => Err(Error::MalformedCount),
            Some(count) => Ok((isotope.key(), count)),
        },
    }
}

/// What the terms of a formula contribute, or the failure of the first term
/// that fails.
pub open spec fn resolved_all(terms: Seq<Term>, rows: Rows) -> Result<Seq<(u32, usize)>, Error>
    decreases terms.len(),
{
    if terms.len() == 0 {
        Ok(Seq::empty())
    } else {
        match resolved_all(terms.drop_last(), rows) {
            Err(error) => Err(error),
            Ok(pairs) => match resolved(terms.last(), rows) {
                Err(error) => Err(error),
                Ok(pair) => Ok(pairs.push(pair)),
            },
        }
    }
}

/// What formula text says: the counts that its terms add up to, or the
/// failure of its first term that fails.
pub open spec fn parsed(text: Seq<char>, rows: Rows) -> Result<Counts, Error> {
    match resolved_all(terms(text), rows) {
        Err(error) => Err(error),
        Ok(pairs) => Ok(accumulated(pairs)),
    }
}

/// Once a term has failed, the terms after it do not matter.
pub proof fn lemma_failure_stands(terms: Seq<Term>, rows: Rows, i: int)
    requires
        0 <= i <= terms.len(),
        resolved_all(terms.take(i), rows) is Err,
    ensures
        resolved_all(terms, rows) == resolved_all(terms.take(i), rows),
    decreases terms.len() - i,
{
    if i < terms.len() {
        assert(terms.take(i + 1).drop_last() =~= terms.take(i));
        lemma_failure_stands(terms, rows, i + 1);
    } else {
        assert(terms.take(i) =~= terms);
    }
}

/// Merging keeps counts valid.
pub proof fn lemma_merged_positive(counts: Counts, key: u32, count: usize)
    requires
        positive(counts),
    ensures
        positive(merged(counts, key, count)),
{
    let after = merged(counts, key, count);
    assert forall|k: u32| after.contains_key(k) implies #[trigger] after[k] > 0 by {
        if k != key {
            assert(counts.contains_key(k));
            assert(counts[k] > 0);
        }
    }
}

/// Merging takes nothing away: no isotope leaves the counts, and no count
/// gets smaller.
pub proof fn law_merging_takes_nothing_away(counts: Counts, key: u32, count: usize, other: u32)
    ensures
        counts.contains_key(other) ==> merged(counts, key, count).contains_key(other),
        count_in(merged(counts, key, count), other) >= count_in(counts, other),
        other != key ==> count_in(merged(counts, key, count), other) == count_in(counts, other),
{
}

/// Counts that pairs add up to are valid.
pub proof fn lemma_accumulated_positive(counts: Counts, pairs: Seq<(u32, usize)>)
    requires
        positive(counts),
    ensures
        positive(accumulated_onto(counts, pairs)),
    decreases pairs.len(),
{
    if pairs.len() > 0 {
        lemma_accumulated_positive(counts, pairs.drop_last());
        lemma_merged_positive(
            accumulated_onto(counts, pairs.drop_last()),
            pairs.last().0,
            pairs.last().1,
        );
    }
}

/// The entries of `counts` with a key below `bound`, by rising key.
pub open spec fn entries_below(counts: Counts, bound: nat) -> Seq<(u32, usize)>
    decreases bound,
{
    if bound == 0 {
        Seq::empty()
    } else {
        let key = (bound - 1) as u32;
        let before = entries_below(counts, (bound - 1) as nat);
        if counts.contains_key(key) {
            before.push((key, counts[key]))
        } else {
            before
        }
    }
}

/// The entries of `counts` in the order of the isotopes: by rising key.
pub open spec fn entries(counts: Counts) -> Seq<(u32, usize)> {
    entries_below(counts, 0x1_0000_0000)
}

/// How one entry is written: the symbol of the isotope, and the count
/// behind it where it is more than one.
pub open spec fn written(entry: (u32, usize), rows: Rows) -> Seq<char> {
    let symbol = match symbol_of(rows, Isotope::of_key(entry.0)) {
        Some(symbol) => symbol,
        None => Seq::empty(),
    };
    if entry.1 > 1 {
        symbol + numeral(entry.1 as nat)
    } else {
        symbol
    }
}

/// How entries are written: one after the other, with nothing between them.
pub open spec fn written_all(entries: Seq<(u32, usize)>, rows: Rows) -> Seq<char>
    decreases entries.len(),
{
    if entries.len() == 0 {
        Seq::empty()
    } else {
        written_all(entries.drop_last(), rows) + written(entries.last(), rows)
    }
}

/// Whether every isotope that occurs in `counts` has a symbol in `rows`.
pub open spec fn named(counts: Counts, rows: Rows) -> bool {
    forall|key: u32|
        counts.contains_key(key) ==> (#[trigger] symbol_of(rows, Isotope::of_key(key))) is Some
}

/// The formula of `counts`: its entries in the order of the isotopes, each
/// written as its symbol and its count. There is none where an isotope has
/// no symbol.
pub open spec fn rendered(counts: Counts, rows: Rows) -> Option<Seq<char>> {
    if named(counts, rows) {
        Some(written_all(entries(counts), rows))
    } else {
        None
    }
}

/// Of pairs that list the entries of `counts`, those with a key below
/// `bound` come first and are the entries below `bound`. Returns how many
/// they are.
proof fn lemma_entries_prefix(pairs: Seq<(u32, usize)>, counts: Counts, bound: nat) -> (p: int)
    requires
        lists(pairs, counts),
        bound <= 0x1_0000_0000,
    ensures
        0 <= p <= pairs.len(),
        forall|i: int| 0 <= i < p ==> (#[trigger] pairs[i]).0 < bound,
        forall|i: int| p <= i < pairs.len() ==> (#[trigger] pairs[i]).0 >= bound,
        entries_below(counts, bound) == pairs.take(p),
    decreases bound,
{
    if bound == 0 {
        assert(pairs.take(0) =~= Seq::<(u32, usize)>::empty());
        0
    } else {
        let key = (bound - 1) as u32;
        let q = lemma_entries_prefix(pairs, counts, (bound - 1) as nat);
        if counts.contains_key(key) {
            let i = choose|i: int| 0 <= i < pairs.len() && #[trigger] pairs[i].0 == key;
            assert(i == q) by {
                if i < q {
                    assert(pairs[i].0 < bound - 1);
                } else if i > q {
                    assert(pairs[q].0 >= bound - 1);
                    assert(pairs[q].0 < pairs[i].0);
                }
            }
            assert forall|j: int| q + 1 <= j < pairs.len() implies (#[trigger] pairs[j]).0
                >= bound by {
                assert(pairs[q].0 < pairs[j].0);
            }
            assert(counts[pairs[q].0] == pairs[q].1);
            assert(pairs.take(q).push(pairs[q]) =~= pairs.take(q + 1));
            q + 1
        } else {
            assert forall|j: int| q <= j < pairs.len() implies (#[trigger] pairs[j]).0 >= bound by {
                assert(counts.contains_key(pairs[j].0));
            }
            q
        }
    }
}

/// Pairs that list the entries of `counts` by rising key are its entries.
pub proof fn lemma_lists_entries(pairs: Seq<(u32, usize)>, counts: Counts)
    requires
        lists(pairs, counts),
    ensures
        pairs == entries(counts),
{
    let p = lemma_entries_prefix(pairs, counts, 0x1_0000_0000);
    if p < pairs.len() {
        assert(pairs[p].0 >= 0x1_0000_0000);
    }
    assert(pairs.take(p) =~= pairs);
}

/// The entries of counts list them: each isotope that occurs stands once,
/// with its count, and the keys rise.
pub proof fn lemma_entries_list(counts: Counts)
    ensures
        lists(entries(counts), counts),
{
    lemma_entries_below_list(counts, 0x1_0000_0000);
}

/// The entries below a bound list the counts of the isotopes with a key
/// below the bound.
proof fn lemma_entries_below_list(counts: Counts, bound: nat)
    requires
        bound <= 0x1_0000_0000,
    ensures
        forall|i: int|
            0 <= i < entries_below(counts, bound).len() ==> (#[trigger] entries_below(
                counts,
                bound,
            )[i]).0 < bound,
        forall|i: int, j: int|
            0 <= i < j < entries_below(counts, bound).len() ==> entries_below(counts, bound)[i].0
                < entries_below(counts, bound)[j].0,
        forall|i: int|
            0 <= i < entries_below(counts, bound).len() ==> counts.contains_key(
                #[trigger] entries_below(counts, bound)[i].0,
            ) && counts[entries_below(counts, bound)[i].0] == entries_below(counts, bound)[i].1,
        forall|key: u32|
            counts.contains_key(key) && key < bound ==> exists|i: int|
                0 <= i < entries_below(counts, bound).len() && #[trigger] entries_below(
                    counts,
                    bound,
                )[i].0 == key,
    decreases bound,
{
    if bound > 0 {
        let last = (bound - 1) as u32;
        let before = entries_below(counts, (bound - 1) as nat);
        let now = entries_below(counts, bound);
        lemma_entries_below_list(counts, (bound - 1) as nat);
        if counts.contains_key(last) {
            assert(now == before.push((last, counts[last])));
            assert forall|i: int| 0 <= i < now.len() implies (#[trigger] now[i]).0 < bound by {
                if i < before.len() {
                    assert(now[i] == before[i]);
                }
            }
            assert forall|i: int, j: int| 0 <= i < j < now.len() implies now[i].0 < now[j].0 by {
                assert(now[i] == before[i]);
                if j < before.len() {
                    assert(now[j] == before[j]);
                }
            }
            assert forall|i: int| 0 <= i < now.len() implies counts.contains_key(
                #[trigger] now[i].0,
            ) && counts[now[i].0] == now[i].1 by {
                if i < before.len() {
                    assert(now[i] == before[i]);
                }
            }
            assert forall|key: u32| counts.contains_key(key) && key < bound implies exists|i: int|
                0 <= i < now.len() && #[trigger] now[i].0 == key by {
                if key == last {
                    assert(now[before.len() as int].0 == key);
                } else {
                    let i = choose|i: int| 0 <= i < before.len() && #[trigger] before[i].0 == key;
                    assert(now[i].0 == key);
                }
            }
        } else {
            assert(now == before);
            assert forall|key: u32| counts.contains_key(key) && key < bound implies exists|i: int|
                0 <= i < now.len() && #[trigger] now[i].0 == key by {
                let i = choose|i: int| 0 <= i < before.len() && #[trigger] before[i].0 == key;
                assert(now[i].0 == key);
            }
        }
    }
}

/// Counts with the same entries are the same counts.
pub proof fn lemma_listed_equal(pairs: Seq<(u32, usize)>, a: Counts, b: Counts)
    requires
        lists(pairs, a),
        lists(pairs, b),
    ensures
        a == b,
{
    assert forall|key: u32| #[trigger] a.dom().contains(key) == b.dom().contains(key) by {
        if a.contains_key(key) {
            let i = choose|i: int| 0 <= i < pairs.len() && #[trigger] pairs[i].0 == key;
            assert(b.contains_key(pairs[i].0));
        }
        if b.contains_key(key) {
            let i = choose|i: int| 0 <= i < pairs.len() && #[trigger] pairs[i].0 == key;
            assert(a.contains_key(pairs[i].0));
        }
    }
    assert forall|key: u32| a.dom().contains(key) implies #[trigger] a[key] == b[key] by {
        let i = choose|i: int| 0 <= i < pairs.len() && #[trigger] pairs[i].0 == key;
        assert(a[pairs[i].0] == pairs[i].1);
        assert(b[pairs[i].0] == pairs[i].1);
    }
    assert(a.dom() =~= b.dom());
    assert(a =~= b);
}

/// An atom counter: a multiset of isotopes.
///
/// An isotope with no atoms has no entry. A count that would pass
/// `usize::MAX` stays there.
#[derive(Debug, Hash)]
pub struct Counter {
    counts: BTreeMap<u32, usize>,
}

impl View for Counter {
    type V = Counts;

    closed spec fn view(&self) -> Counts {
        self.counts@
    }
}

impl PartialEq for Counter {
    /// Whether the two counters hold the same isotopes with the same counts.
    fn eq(&self, other: &Counter) -> (equal: bool) {
        let mine = sorted_pairs(&self.counts);
        let theirs = sorted_pairs(&other.counts);
        proof {
            lemma_lists_entries(mine@, self@);
            lemma_lists_entries(theirs@, other@);
        }
        if mine.len() != theirs.len() {
            return false;
        }
        let mut i: usize = 0;
        while i < mine.len()
            invariant
                i <= mine.len(),
                mine.len() == theirs.len(),
                mine@ == entries(self@),
                theirs@ == entries(other@),
                forall|k: int| 0 <= k < i ==> mine@[k] == theirs@[k],
            decreases mine.len() - i,
        {
            if mine[i].0 != theirs[i].0 || mine[i].1 != theirs[i].1 {
                return false;
            }
            i += 1;
        }
        proof {
            assert(mine@ =~= theirs@);
            lemma_listed_equal(mine@, self@, other@);
        }
        true
    }
}

impl PartialEqSpecImpl for Counter {
    open spec fn obeys_eq_spec() -> bool {
        true
    }

    open spec fn eq_spec(&self, other: &Counter) -> bool {
        self@ == other@
    }
}

impl Eq for Counter {

}

impl Clone for Counter {
    fn clone(&self) -> (copy: Counter)
        ensures
            copy@ == self@,
            positive(copy@),
    {
        proof {
            use_type_invariant(self);
        }
        Counter { counts: self.counts.clone() }
    }
}

impl Default for Counter {
    fn default() -> (counter: Counter)
        ensures
            counter@ == Counts::empty(),
            positive(counter@),
    {
        Counter { counts: BTreeMap::new() }
    }
}

impl Token {
    /// The count that the token gives its element.
    pub fn count(&self) -> (count: Option<usize>)
        ensures
            count == self@.count(),
    {
        if self.digits.as_str().is_empty() {
            Some(1)
        } else {
            parse_count(self.digits.as_str())
        }
    }
}

impl Counter {
    #[verifier::type_invariant]
    spec fn well_formed(&self) -> bool {
        positive(self@)
    }

    /// A counter with the given counts, if none of them is zero.
    pub fn new(counts: BTreeMap<u32, usize>) -> (counter: Option<Counter>)
        ensures
            counter is Some == positive(counts@),
            counter is Some ==> counter->0@ == counts@,
    {
        let pairs = sorted_pairs(&counts);
        let mut i: usize = 0;
        while i < pairs.len()
            invariant
                i <= pairs.len(),
                lists(pairs@, counts@),
                forall|k: int| 0 <= k < i ==> pairs@[k].1 > 0,
            decreases pairs.len() - i,
        {
            if pairs[i].1 == 0 {
                proof {
                    assert(counts@.contains_key(pairs@[i as int].0));
                }
                return None;
            }
            i += 1;
        }
        proof {
            assert forall|key: u32| counts@.contains_key(key) implies #[trigger] counts@[key]
                > 0 by {
                let k = choose|k: int| 0 <= k < pairs@.len() && #[trigger] pairs@[k].0 == key;
                assert(pairs@[k].1 > 0);
            }
        }
        Some(Counter { counts })
    }

    /// How many atoms of `isotope` are counted.
    pub fn count(&self, isotope: Isotope) -> (count: usize)
        ensures
            count == count_in(self@, isotope.key()),
    {
        let key = isotope.to_key();
        match self.counts.get(&key) {
            Some(count) => *count,
            None => 0,
        }
    }

    /// How many isotopes occur.
    pub fn len(&self) -> (n: usize)
        ensures
            n == self@.dom().len(),
    {
        self.counts.len()
    }

    /// Whether no isotope occurs.
    pub fn is_empty(&self) -> (empty: bool)
        ensures
            empty == self@.is_empty(),
    {
        self.counts.is_empty()
    }

    /// The counts as a map from the key of an isotope to its count.
    pub fn as_map(&self) -> (counts: &BTreeMap<u32, usize>)
        ensures
            counts@ == self@,
            positive(counts@),
    {
        proof {
            use_type_invariant(self);
        }
        &self.counts
    }

    /// Counts `count` more atoms of `isotope`.
    pub fn merge(&mut self, isotope: Isotope, count: usize)
        ensures
            final(self)@ == merged(old(self)@, isotope.key(), count),
            positive(final(self)@),
    {
        proof {
            use_type_invariant(&*self);
            lemma_merged_positive(self@, isotope.key(), count);
        }
        if count > 0 {
            let sum = self.count(isotope).saturating_add(count);
            let mut counts: BTreeMap<u32, usize> = BTreeMap::new();
            core::mem::swap(&mut counts, &mut self.counts);
            counts.insert(isotope.to_key(), sum);
            self.counts = counts;
        }
    }

    /// The counter that `pairs` add up to, merged one after the other.
    pub fn accumulate(pairs: &Vec<(Isotope, usize)>) -> (counter: Counter)
        ensures
            counter@ == accumulated(keyed(pairs@)),
            positive(counter@),
    {
        let mut counter = Counter::default();
        let mut i: usize = 0;
        while i < pairs.len()
            invariant
                i <= pairs.len(),
                counter@ == accumulated(keyed(pairs@.take(i as int))),
            decreases pairs.len() - i,
        {
            proof {
                assert(keyed(pairs@.take(i + 1)).drop_last() =~= keyed(pairs@.take(i as int)));
            }
            counter.merge(pairs[i].0, pairs[i].1);
            i += 1;
        }
        proof {
            assert(pairs@.take(pairs@.len() as int) =~= pairs@);
            use_type_invariant(&counter);
        }
        counter
    }

    /// Reads a formula, with the species that `table` knows.
    ///
    /// The terms of the formula are read in the order in which they are
    /// written, and what they say of one isotope adds up. The first term whose
    /// symbol is not in the table, or whose digits are no count, ends the
    /// reading with its failure.
    pub fn parse(text: &str, table: &Table) -> (outcome: Result<Counter, Error>)
        ensures
            match outcome {
                Ok(counter) => parsed(text@, table@) == Ok::<Counts, Error>(counter@) && positive(
                    counter@,
                ),
                Err(error) => parsed(text@, table@) == Err::<Counts, Error>(error),
            },
    {
        let tokens = tokenize(text);
        let mut counter = Counter::default();
        let ghost mut pairs: Seq<(u32, usize)> = Seq::empty();
        let mut i: usize = 0;
        proof {
            assert(terms(text@).take(0) =~= Seq::<Term>::empty());
        }
        while i < tokens.len()
            invariant
                i <= tokens.len(),
                views(tokens@) == terms(text@),
                resolved_all(terms(text@).take(i as int), table@) == Ok::<
                    Seq<(u32, usize)>,
                    Error,
                >(pairs),
                counter@ == accumulated(pairs),
            decreases tokens.len() - i,
        {
            let ghost term = terms(text@)[i as int];
            proof {
                assert(terms(text@).take(i + 1).drop_last() =~= terms(text@).take(i as int));
                assert(term == tokens@[i as int]@);
            }
            let token = &tokens[i];
            let isotope = match table.lookup(token.symbol.as_str()) {
                Some(isotope) => isotope,
                None => {
                    proof {
                        lemma_failure_stands(terms(text@), table@, i + 1);
                    }
                    return Err(Error::UnknownSpecies);
                },
            };
            let count = match token.count() {
                Some(count) => count,
                None => {
                    proof {
                        lemma_failure_stands(terms(text@), table@, i + 1);
                    }
                    return Err(Error::MalformedCount);
                },
            };
            proof {
                assert(pairs.push((isotope.key(), count)).drop_last() =~= pairs);
                pairs = pairs.push((isotope.key(), count));
            }
            counter.merge(isotope, count);
            i += 1;
        }
        proof {
            assert(terms(text@).take(i as int) =~= terms(text@));
            use_type_invariant(&counter);
        }
        Ok(counter)
    }

    /// The entries of the counter in the order of the isotopes: a lighter
    /// element first, and within an element the lighter isotope.
    pub fn entries(&self) -> (pairs: Vec<(Isotope, usize)>)
        ensures
            keyed(pairs@) == entries(self@),
            lists(keyed(pairs@), self@),
    {
        let sorted = sorted_pairs(&self.counts);
        let mut pairs: Vec<(Isotope, usize)> = Vec::new();
        let mut i: usize = 0;
        while i < sorted.len()
            invariant
                i <= sorted.len(),
                keyed(pairs@) == sorted@.take(i as int),
            decreases sorted.len() - i,
        {
            proof {
                let entry = sorted@[i as int];
                let pair = (Isotope::of_key(entry.0), entry.1);
                assert(pair.0.key() == entry.0);
                assert(keyed(pairs@.push(pair)) =~= keyed(pairs@).push(entry));
                assert(sorted@.take(i as int).push(entry) =~= sorted@.take(i + 1));
            }
            pairs.push((Isotope::from_key(sorted[i].0), sorted[i].1));
            i += 1;
        }
        proof {
            assert(sorted@.take(sorted@.len() as int) =~= sorted@);
            lemma_lists_entries(sorted@, self@);
        }
        pairs
    }

    /// Writes the formula of the counter, with the symbols that `table`
    /// gives: for each isotope in order its symbol, and its count where it is
    /// more than one. There is no formula where an isotope has no symbol.
    pub fn render(&self, table: &Table) -> (text: Option<String>)
        ensures
            match text {
                Some(text) => rendered(self@, table@) == Some(text@),
                None => rendered(self@, table@) is None,
            },
    {
        let sorted = sorted_pairs(&self.counts);
        let mut text = String::new();
        let mut i: usize = 0;
        proof {
            lemma_lists_entries(sorted@, self@);
            assert(sorted@.take(0) =~= Seq::<(u32, usize)>::empty());
        }
        while i < sorted.len()
            invariant
                i <= sorted.len(),
                lists(sorted@, self@),
                sorted@ == entries(self@),
                text@ == written_all(sorted@.take(i as int), table@),
                forall|k: int|
                    0 <= k < i ==> (#[trigger] symbol_of(
                        table@,
                        Isotope::of_key(sorted@[k].0),
                    )) is Some,
            decreases sorted.len() - i,
        {
            let (key, count) = sorted[i];
            proof {
                assert(sorted@.take(i + 1).drop_last() =~= sorted@.take(i as int));
                assert(self@.contains_key(sorted@[i as int].0));
            }
            match table.symbol(Isotope::from_key(key)) {
                Some(symbol) => {
                    text.append(symbol.as_str());
                },
                None => {
                    return None;
                },
            }
            if count > 1 {
                push_numeral(&mut text, count);
            }
            i += 1;
        }
        proof {
            assert(sorted@.take(sorted@.len() as int) =~= sorted@);
            assert forall|key: u32| self@.contains_key(key) implies (#[trigger] symbol_of(
                table@,
                Isotope::of_key(key),
            )) is Some by {
                let k = choose|k: int| 0 <= k < sorted@.len() && #[trigger] sorted@[k].0 == key;
                assert(symbol_of(table@, Isotope::of_key(sorted@[k].0)) is Some);
            }
        }
        Some(text)
    }
}

} // verus!
