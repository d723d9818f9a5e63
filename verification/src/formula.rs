//! The grammar of formula text.
//!
//! A formula is read as a sequence of terms. A term is an upper case letter,
//! the lower case letters that follow it, and the digits that follow those:
//! an element symbol and a count. Characters that begin no term are passed
//! over.
use crate::digits::{all_digits, count_of, is_digit};
use vstd::prelude::*;
use vstd::string::*;

verus! {

/// Whether `c` is an upper case letter of the Latin alphabet.
pub open spec fn is_upper(c: char) -> bool {
    'A' <= c && c <= 'Z'
}

/// Whether `c` is a lower case letter of the Latin alphabet.
pub open spec fn is_lower(c: char) -> bool {
    'a' <= c && c <= 'z'
}

/// Whether `s` has the shape of an element symbol: an upper case letter
/// followed by lower case letters only.
pub open spec fn is_symbol(s: Seq<char>) -> bool {
    &&& s.len() > 0
    &&& is_upper(s[0])
    &&& forall|i: int| 1 <= i < s.len() ==> is_lower(#[trigger] s[i])
}

/// Where the run of lower case letters that starts at `i` ends.
pub open spec fn lower_end(s: Seq<char>, i: int) -> int
    decreases s.len() - i,
{
    if 0 <= i < s.len() && is_lower(s[i]) {
        lower_end(s, i + 1)
    } else {
        i
    }
}

/// Where the run of digits that starts at `i` ends.
pub open spec fn digit_end(s: Seq<char>, i: int) -> int
    decreases s.len() - i,
{
    if 0 <= i < s.len() && is_digit(s[i]) {
        digit_end(s, i + 1)
    } else {
        i
    }
}

/// One term of a formula: an element symbol and the digits written after it.
pub struct Term {
    pub symbol: Seq<char>,
    pub digits: Seq<char>,
}

impl Term {
    /// The count that the term gives its element: one where no digits are
    /// written, else what the digits say.
    pub open spec fn count(self) -> Option<usize> {
        if self.digits.len() == 0 {
            Some(1usize)
        } else {
            count_of(self.digits)
        }
    }
}

/// The terms of `s` that begin at or after position `i`.
pub open spec fn terms_from(s: Seq<char>, i: int) -> Seq<Term>
    decreases s.len() - i,
    via terms_from_decreases
{
    if i < 0 || i >= s.len() {
        Seq::empty()
    } else if !is_upper(s[i]) {
        terms_from(s, i + 1)
    } else {
        let j = lower_end(s, i + 1);
        let k = digit_end(s, j);
        seq![Term { symbol: s.subrange(i, j), digits: s.subrange(j, k) }] + terms_from(s, k)
    }
}

#[via_fn]
proof fn terms_from_decreases(s: Seq<char>, i: int) {
    if 0 <= i < s.len() && is_upper(s[i]) {
        lemma_lower_end(s, i + 1);
        lemma_digit_end(s, lower_end(s, i + 1));
    }
}

/// The terms of a formula, in the order in which they are written.
pub open spec fn terms(s: Seq<char>) -> Seq<Term> {
    terms_from(s, 0)
}

/// A run of lower case letters ends at or after its start, within the text,
/// and holds lower case letters only; the character after it is none.
pub proof fn lemma_lower_end(s: Seq<char>, i: int)
    requires
        0 <= i <= s.len(),
    ensures
        i <= lower_end(s, i) <= s.len(),
        forall|k: int| i <= k < lower_end(s, i) ==> is_lower(#[trigger] s[k]),
        lower_end(s, i) < s.len() ==> !is_lower(s[lower_end(s, i)]),
    decreases s.len() - i,
{
    if i < s.len() && is_lower(s[i]) {
        lemma_lower_end(s, i + 1);
    }
}

/// A run of digits ends at or after its start, within the text, and holds
/// digits only; the character after it is none.
pub proof fn lemma_digit_end(s: Seq<char>, i: int)
    requires
        0 <= i <= s.len(),
    ensures
        i <= digit_end(s, i) <= s.len(),
        forall|k: int| i <= k < digit_end(s, i) ==> is_digit(#[trigger] s[k]),
        digit_end(s, i) < s.len() ==> !is_digit(s[digit_end(s, i)]),
    decreases s.len() - i,
{
    if i < s.len() && is_digit(s[i]) {
        lemma_digit_end(s, i + 1);
    }
}

/// Whether a term is an element symbol followed by digits only.
pub open spec fn is_term(term: Term) -> bool {
    is_symbol(term.symbol) && all_digits(term.digits)
}

/// Every term of a formula is an element symbol followed by digits only.
pub proof fn law_terms_are_symbols_and_digits(s: Seq<char>, i: int)
    ensures
        forall|k: int| 0 <= k < terms_from(s, i).len() ==> is_term(#[trigger] terms_from(s, i)[k]),
    decreases s.len() - i,
{
    let found = terms_from(s, i);
    if i < 0 || i >= s.len() {
        assert(found.len() == 0);
    } else if !is_upper(s[i]) {
        law_terms_are_symbols_and_digits(s, i + 1);
        assert(found == terms_from(s, i + 1));
    } else {
        let j = lower_end(s, i + 1);
        lemma_lower_end(s, i + 1);
        let k = digit_end(s, j);
        lemma_digit_end(s, j);
        law_terms_are_symbols_and_digits(s, k);
        let first = Term { symbol: s.subrange(i, j), digits: s.subrange(j, k) };
        assert(found == seq![first] + terms_from(s, k));
        assert(is_term(first)) by {
            assert(first.symbol[0] == s[i]);
            assert forall|m: int| 1 <= m < first.symbol.len() implies is_lower(
                #[trigger] first.symbol[m],
            ) by {
                assert(first.symbol[m] == s[i + m]);
                assert(is_lower(s[i + m]));
            }
            assert forall|m: int| 0 <= m < first.digits.len() implies is_digit(
                #[trigger] first.digits[m],
            ) by {
                assert(first.digits[m] == s[j + m]);
                assert(is_digit(s[j + m]));
            }
        }
        assert forall|n: int| 0 <= n < found.len() implies is_term(#[trigger] found[n]) by {
            if n > 0 {
                assert(found[n] == terms_from(s, k)[n - 1]);
            } else {
                assert(found[0] == first);
            }
        }
    }
}

/// One term of a formula as text.
#[derive(Debug, PartialEq, Eq)]
pub struct Token {
    /// The element symbol.
    pub symbol: String,
    /// The digits written after it, none where the count is one.
    pub digits: String,
}

impl View for Token {
    type V = Term;

    open spec fn view(&self) -> Term {
        Term { symbol: self.symbol@, digits: self.digits@ }
    }
}

impl Clone for Token {
    fn clone(&self) -> (copy: Token)
        ensures
            copy@ == self@,
    {
        Token { symbol: self.symbol.clone(), digits: self.digits.clone() }
    }
}

/// The terms that a vector of tokens stands for.
pub open spec fn views(tokens: Seq<Token>) -> Seq<Term> {
    tokens.map_values(|t: Token| t@)
}

/// The characters of `text`.
fn characters(text: &str) -> (chars: Vec<char>)
    ensures
        chars@ == text@,
{
    let mut chars: Vec<char> = Vec::new();
    for c in it: text.chars()
        invariant
            it.seq() == text@,
            chars@ == text@.take(it.index() as int),
    {
        chars.push(c);
        assert(chars@ =~= text@.take(it.index() + 1));
    }
    assert(text@.take(text@.len() as int) =~= text@);
    chars
}

/// Finds where the run of lower case letters that starts at `i` ends.
fn scan_lower(chars: &Vec<char>, i: usize) -> (end: usize)
    requires
        i <= chars.len(),
    ensures
        end == lower_end(chars@, i as int),
        i <= end <= chars.len(),
{
    let mut j: usize = i;
    while j < chars.len() && 'a' <= chars[j] && chars[j] <= 'z'
        invariant
            i <= j <= chars.len(),
            lower_end(chars@, i as int) == lower_end(chars@, j as int),
        decreases chars.len() - j,
    {
        j += 1;
    }
    j
}

/// Finds where the run of digits that starts at `i` ends.
fn scan_digits(chars: &Vec<char>, i: usize) -> (end: usize)
    requires
        i <= chars.len(),
    ensures
        end == digit_end(chars@, i as int),
        i <= end <= chars.len(),
{
    let mut j: usize = i;
    while j < chars.len() && '0' <= chars[j] && chars[j] <= '9'
        invariant
            i <= j <= chars.len(),
            digit_end(chars@, i as int) == digit_end(chars@, j as int),
        decreases chars.len() - j,
    {
        j += 1;
    }
    j
}

/// Splits formula text into its terms.
pub fn tokenize(text: &str) -> (tokens: Vec<Token>)
    ensures
        views(tokens@) == terms(text@),
{
    let chars = characters(text);
    let mut tokens: Vec<Token> = Vec::new();
    let mut i: usize = 0;
    while i < chars.len()
        invariant
            chars@ == text@,
            i <= chars.len(),
            terms(text@) == views(tokens@) + terms_from(text@, i as int),
        decreases chars.len() - i,
    {
        let c = chars[i];
        if 'A' <= c && c <= 'Z' {
            let j = scan_lower(&chars, i + 1);
            let k = scan_digits(&chars, j);
            let token = Token {
                symbol: String::from_str(text.substring_char(i, j)),
                digits: String::from_str(text.substring_char(j, k)),
            };
            proof {
                assert(views(tokens@.push(token)) =~= views(tokens@) + seq![token@]);
                assert(views(tokens@) + (seq![token@] + terms_from(text@, k as int)) =~= views(
                    tokens@,
                ) + seq![token@] + terms_from(text@, k as int));
            }
            tokens.push(token);
            i = k;
        } else {
            i += 1;
        }
    }
    assert(views(tokens@) + terms_from(text@, i as int) =~= views(tokens@));
    tokens
}

} // verus!
