//! Reading the formula that was written for a counter gives the counter back.
use crate::counter::{
    accumulated, entries, entries_below, lemma_accumulated_positive, lemma_entries_list, parsed,
    positive, rendered, resolved, resolved_all, written, written_all, Counts,
};
use crate::digits::{all_digits, is_digit, lemma_count_of_numeral, lemma_numeral, numeral};
use crate::error::Error;
use crate::formula::{
    digit_end, is_lower, is_symbol, is_upper, lemma_digit_end, lemma_lower_end, lower_end,
    terms, terms_from, Term,
};
use crate::isotope::Isotope;
use crate::table::{is_table, lemma_symbol_leads_back, symbol_of, Rows};
use vstd::prelude::*;

verus! {

/// The term that an entry is written as.
pub open spec fn term_of(entry: (u32, usize), rows: Rows) -> Term {
    Term {
        symbol: match symbol_of(rows, Isotope::of_key(entry.0)) {
            Some(symbol) => symbol,
            None => Seq::empty(),
        },
        digits: if entry.1 > 1 {
            numeral(entry.1 as nat)
        } else {
            Seq::empty()
        },
    }
}

/// The terms that entries are written as.
pub open spec fn terms_of(entries: Seq<(u32, usize)>, rows: Rows) -> Seq<Term> {
    entries.map_values(|entry: (u32, usize)| term_of(entry, rows))
}

/// Whether each of the entries has a count and a symbol.
pub open spec fn writable(entries: Seq<(u32, usize)>, rows: Rows) -> bool {
    forall|i: int|
        0 <= i < entries.len() ==> (#[trigger] entries[i]).1 >= 1 && symbol_of(
            rows,
            Isotope::of_key(entries[i].0),
        ) is Some
}

/// A run of lower case letters that is followed by another character, or
/// by nothing, ends there.
proof fn lemma_lower_run(s: Seq<char>, i: int, j: int)
    requires
        0 <= i <= j <= s.len(),
        forall|k: int| i <= k < j ==> is_lower(#[trigger] s[k]),
        j < s.len() ==> !is_lower(s[j]),
    ensures
        lower_end(s, i) == j,
    decreases j - i,
{
    if i < j {
        assert(is_lower(s[i]));
        lemma_lower_run(s, i + 1, j);
    }
}

/// A run of digits that is followed by another character, or by nothing,
/// ends there.
proof fn lemma_digit_run(s: Seq<char>, i: int, j: int)
    requires
        0 <= i <= j <= s.len(),
        forall|k: int| i <= k < j ==> is_digit(#[trigger] s[k]),
        j < s.len() ==> !is_digit(s[j]),
    ensures
        digit_end(s, i) == j,
    decreases j - i,
{
    if i < j {
        assert(is_digit(s[i]));
        lemma_digit_run(s, i + 1, j);
    }
}

/// Text that is written behind a formula, and begins with an upper case
/// letter, changes no term of the formula: it adds the terms that it holds.
proof fn lemma_terms_append(a: Seq<char>, symbol: Seq<char>, digits: Seq<char>, i: int)
    requires
        is_symbol(symbol),
        all_digits(digits),
        0 <= i <= a.len(),
    ensures
        terms_from(a + symbol + digits, i) == terms_from(a, i).push(Term { symbol, digits }),
    decreases a.len() - i,
{
    let s = a + symbol + digits;
    let added = Term { symbol, digits };
    let n = a.len() as int;
    assert(s[n] == symbol[0]);
    assert forall|k: int| 0 <= k < n implies s[k] == a[k] by {}
    if i == n {
        let j = n + symbol.len();
        assert forall|k: int| n + 1 <= k < j implies is_lower(#[trigger] s[k]) by {
            assert(s[k] == symbol[k - n]);
        }
        if j < s.len() {
            assert(s[j] == digits[0]);
            assert(is_digit(digits[0]));
        }
        lemma_lower_run(s, n + 1, j);
        assert forall|k: int| j <= k < s.len() implies is_digit(#[trigger] s[k]) by {
            assert(s[k] == digits[k - j]);
            assert(is_digit(digits[k - j]));
        }
        lemma_digit_run(s, j, s.len() as int);
        assert(s.subrange(n, j) =~= symbol);
        assert(s.subrange(j, s.len() as int) =~= digits);
        assert(terms_from(s, s.len() as int) =~= Seq::<Term>::empty());
        assert(terms_from(a, n) =~= Seq::<Term>::empty());
        assert(seq![added] + Seq::<Term>::empty() =~= Seq::<Term>::empty().push(added));
    } else if !is_upper(a[i]) {
        lemma_terms_append(a, symbol, digits, i + 1);
    } else {
        lemma_lower_end(a, i + 1);
        let j = lower_end(a, i + 1);
        assert(!is_lower(s[j]));
        assert forall|k: int| i + 1 <= k < j implies is_lower(#[trigger] s[k]) by {
            assert(is_lower(a[k]));
        }
        lemma_lower_run(s, i + 1, j);
        lemma_digit_end(a, j);
        let k = digit_end(a, j);
        assert(!is_digit(s[k]));
        assert forall|m: int| j <= m < k implies is_digit(#[trigger] s[m]) by {
            assert(is_digit(a[m]));
        }
        lemma_digit_run(s, j, k);
        lemma_terms_append(a, symbol, digits, k);
        assert(s.subrange(i, j) =~= a.subrange(i, j));
        assert(s.subrange(j, k) =~= a.subrange(j, k));
        let first = Term { symbol: a.subrange(i, j), digits: a.subrange(j, k) };
        assert(seq![first] + terms_from(a, k).push(added) =~= (seq![first] + terms_from(
            a,
            k,
        )).push(added));
    }
}

/// The terms of what was written for entries are the terms that the entries
/// were written as.
proof fn lemma_terms_written(entries: Seq<(u32, usize)>, rows: Rows)
    requires
        is_table(rows),
        writable(entries, rows),
    ensures
        terms(written_all(entries, rows)) == terms_of(entries, rows),
    decreases entries.len(),
{
    if entries.len() == 0 {
        assert(terms_of(entries, rows) =~= Seq::<Term>::empty());
    } else {
        let before = entries.drop_last();
        let entry = entries.last();
        let term = term_of(entry, rows);
        assert forall|i: int| 0 <= i < before.len() implies (#[trigger] before[i]).1 >= 1
            && symbol_of(rows, Isotope::of_key(before[i].0)) is Some by {
            assert(before[i] == entries[i]);
        }
        lemma_terms_written(before, rows);
        lemma_symbol_leads_back(rows, Isotope::of_key(entry.0));
        lemma_numeral(entry.1 as nat);
        let text = written_all(before, rows);
        assert(written(entry, rows) =~= term.symbol + term.digits);
        assert(text + (term.symbol + term.digits) =~= text + term.symbol + term.digits);
        lemma_terms_append(text, term.symbol, term.digits, 0);
        assert(terms_of(before, rows).push(term) =~= terms_of(entries, rows));
    }
}

/// The terms that entries were written as say what the entries hold.
proof fn lemma_resolved_written(entries: Seq<(u32, usize)>, rows: Rows)
    requires
        is_table(rows),
        writable(entries, rows),
    ensures
        resolved_all(terms_of(entries, rows), rows) == Ok::<Seq<(u32, usize)>, Error>(entries),
    decreases entries.len(),
{
    if entries.len() == 0 {
        assert(entries =~= Seq::<(u32, usize)>::empty());
    } else {
        let before = entries.drop_last();
        let entry = entries.last();
        assert forall|i: int| 0 <= i < before.len() implies (#[trigger] before[i]).1 >= 1
            && symbol_of(rows, Isotope::of_key(before[i].0)) is Some by {
            assert(before[i] == entries[i]);
        }
        lemma_resolved_written(before, rows);
        assert(terms_of(entries, rows).drop_last() =~= terms_of(before, rows));
        lemma_symbol_leads_back(rows, Isotope::of_key(entry.0));
        if entry.1 > 1 {
            lemma_count_of_numeral(entry.1);
            lemma_numeral(entry.1 as nat);
        }
        assert(resolved(term_of(entry, rows), rows) == Ok::<(u32, usize), Error>(entry));
        assert(before.push(entry) =~= entries);
    }
}

/// The counts of the isotopes with a key below `bound`.
pub open spec fn counts_below(counts: Counts, bound: nat) -> Counts {
    counts.restrict(Set::new(|key: u32| key < bound))
}

/// The entries below a bound add up to the counts of the isotopes with a
/// key below the bound.
proof fn lemma_entries_add_up(counts: Counts, bound: nat)
    requires
        positive(counts),
        bound <= 0x1_0000_0000,
    ensures
        accumulated(entries_below(counts, bound)) == counts_below(counts, bound),
    decreases bound,
{
    let now = entries_below(counts, bound);
    if bound == 0 {
        assert(now =~= Seq::<(u32, usize)>::empty());
        assert(accumulated(now) =~= counts_below(counts, bound));
    } else {
        let key = (bound - 1) as u32;
        let before = entries_below(counts, (bound - 1) as nat);
        lemma_entries_add_up(counts, (bound - 1) as nat);
        if counts.contains_key(key) {
            assert(now.drop_last() =~= before);
            assert(now.last() == (key, counts[key]));
            assert(counts[key] > 0);
            assert(!counts_below(counts, (bound - 1) as nat).contains_key(key));
            assert(accumulated(now) == counts_below(counts, (bound - 1) as nat).insert(
                key,
                counts[key],
            ));
        }
        assert(accumulated(now) =~= counts_below(counts, bound));
    }
}

/// Reading what was written gives the counter back: where a counter has a
/// formula in a table, the formula reads, with that table, as the counter.
pub proof fn law_round_trip(counts: Counts, rows: Rows)
    requires
        positive(counts),
        is_table(rows),
        rendered(counts, rows) is Some,
    ensures
        parsed(rendered(counts, rows)->0, rows) == Ok::<Counts, Error>(counts),
{
    let all = entries(counts);
    lemma_entries_list(counts);
    lemma_entries_add_up(counts, 0x1_0000_0000);
    assert forall|i: int| 0 <= i < all.len() implies (#[trigger] all[i]).1 >= 1 && symbol_of(
        rows,
        Isotope::of_key(all[i].0),
    ) is Some by {
        assert(counts.contains_key(all[i].0));
        assert(counts[all[i].0] > 0);
    }
    lemma_terms_written(all, rows);
    lemma_resolved_written(all, rows);
    assert(counts_below(counts, 0x1_0000_0000) =~= counts);
}

/// Reading what was written for a counter that pairs added up to gives that
/// counter back.
pub proof fn law_round_trip_accumulated(pairs: Seq<(u32, usize)>, rows: Rows)
    requires
        is_table(rows),
        rendered(accumulated(pairs), rows) is Some,
    ensures
        parsed(rendered(accumulated(pairs), rows)->0, rows) == Ok::<Counts, Error>(
            accumulated(pairs),
        ),
{
    assert(positive(Counts::empty()));
    lemma_accumulated_positive(Counts::empty(), pairs);
    law_round_trip(accumulated(pairs), rows);
}

} // verus!
