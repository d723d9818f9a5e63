//! Decimal numerals: the digits that a count is written with.
use vstd::prelude::*;

verus! {

/// Whether `c` is one of the ten decimal digits.
pub open spec fn is_digit(c: char) -> bool {
    '0' <= c && c <= '9'
}

/// The number that a decimal digit stands for: how far its code is from 48,
/// the code of `0`.
pub open spec fn digit_value(c: char) -> nat {
    (c as u32 - 48) as nat
}

/// The decimal digit that stands for `d`, for `d` below ten: the character
/// whose code is `d` more than that of `0`.
pub open spec fn digit(d: nat) -> char {
    ((d + 48) as u8) as char
}

/// Whether every character of `s` is a decimal digit.
pub open spec fn all_digits(s: Seq<char>) -> bool {
    forall|i: int| 0 <= i < s.len() ==> is_digit(#[trigger] s[i])
}

/// The number that a run of decimal digits denotes, most significant digit
/// first. The empty run denotes zero.
pub open spec fn value(s: Seq<char>) -> nat
    decreases s.len(),
{
    if s.len() == 0 {
        0
    } else {
        value(s.drop_last()) * 10 + digit_value(s.last())
    }
}

/// The decimal numeral of `n`, without leading zeros.
pub open spec fn numeral(n: nat) -> Seq<char>
    decreases n,
{
    if n < 10 {
        seq![digit(n)]
    } else {
        numeral(n / 10).push(digit(n % 10))
    }
}

/// What a run of digits says as a count: its value, if the run is not empty,
/// holds digits only and denotes a positive number that fits in `usize`.
pub open spec fn count_of(s: Seq<char>) -> Option<usize> {
    if s.len() > 0 && all_digits(s) && 1 <= value(s) <= usize::MAX {
        Some(value(s) as usize)
    } else {
        None
    }
}

/// A numeral is a non-empty run of digits that denotes the number it was
/// written for.
pub proof fn lemma_numeral(n: nat)
    ensures
        numeral(n).len() > 0,
        all_digits(numeral(n)),
        value(numeral(n)) == n,
    decreases n,
{
    if n < 10 {
        assert(numeral(n).drop_last() =~= Seq::<char>::empty());
        assert(value(numeral(n).drop_last()) == 0);
    } else {
        lemma_numeral(n / 10);
        assert(numeral(n).drop_last() =~= numeral(n / 10));
    }
}

/// Reading a numeral as a count gives back the number, as long as it is
/// positive and fits.
pub proof fn lemma_count_of_numeral(n: usize)
    requires
        n >= 1,
    ensures
        count_of(numeral(n as nat)) == Some(n),
{
    lemma_numeral(n as nat);
}

/// A longer run of digits denotes at least as much as the run it starts with.
pub proof fn lemma_value_grows(s: Seq<char>, i: int, j: int)
    requires
        0 <= i <= j <= s.len(),
    ensures
        value(s.take(i)) <= value(s.take(j)),
    decreases j - i,
{
    if i < j {
        lemma_value_grows(s, i, j - 1);
        assert(s.take(j).drop_last() =~= s.take(j - 1));
    }
}

/// Whether a run holds digits only and denotes a number that fits in `usize`.
pub open spec fn readable(s: Seq<char>) -> bool {
    all_digits(s) && value(s) <= usize::MAX
}

/// A run is readable only if the run without its last character is.
proof fn lemma_readable_step(s: Seq<char>, i: int)
    requires
        0 <= i < s.len(),
    ensures
        s.take(i + 1).drop_last() == s.take(i),
        s.take(i + 1).last() == s[i],
        all_digits(s.take(i + 1)) == (all_digits(s.take(i)) && is_digit(s[i])),
        value(s.take(i)) <= value(s.take(i + 1)),
{
    let before = s.take(i);
    let after = s.take(i + 1);
    assert(after.drop_last() =~= before);
    if all_digits(before) && is_digit(s[i]) {
        assert forall|k: int| 0 <= k < after.len() implies is_digit(#[trigger] after[k]) by {
            if k < before.len() {
                assert(after[k] == before[k]);
            }
        }
    } else if all_digits(after) {
        assert(is_digit(after[i]));
        assert forall|k: int| 0 <= k < before.len() implies is_digit(#[trigger] before[k]) by {
            assert(before[k] == after[k]);
        }
    }
    lemma_value_grows(s, i, i + 1);
}

/// Reads a run of digits as a count.
pub fn parse_count(digits: &str) -> (count: Option<usize>)
    ensures
        count == count_of(digits@),
{
    let mut total: usize = 0;
    let mut ok: bool = true;
    let mut empty: bool = true;
    for c in it: digits.chars()
        invariant
            it.seq() == digits@,
            ok == readable(digits@.take(it.index() as int)),
            ok ==> total == value(digits@.take(it.index() as int)),
            empty == (it.index() == 0),
    {
        proof {
            lemma_readable_step(digits@, it.index() as int);
        }
        if ok && '0' <= c && c <= '9' {
            let d: usize = (c as u32 - 48) as usize;
            match total.checked_mul(10) {
                Some(tens) => match tens.checked_add(d) {
                    Some(sum) => {
                        total = sum;
                    },
                    None => {
                        ok = false;
                    },
                },
                None => {
                    ok = false;
                },
            }
        } else {
            ok = false;
        }
        empty = false;
    }
    proof {
        assert(digits@.take(digits@.len() as int) =~= digits@);
    }
    if ok && !empty && total >= 1 {
        Some(total)
    } else {
        None
    }
}

/// The text of one decimal digit.
fn digit_text(d: usize) -> (text: &'static str)
    requires
        d < 10,
    ensures
        text@ == seq![digit(d as nat)],
{
    proof {
        reveal_strlit("0");
        reveal_strlit("1");
        reveal_strlit("2");
        reveal_strlit("3");
        reveal_strlit("4");
        reveal_strlit("5");
        reveal_strlit("6");
        reveal_strlit("7");
        reveal_strlit("8");
        reveal_strlit("9");
    }
    let text = match d {
        0 => "0",
        1 => "1",
        2 => "2",
        3 => "3",
        4 => "4",
        5 => "5",
        6 => "6",
        7 => "7",
        8 => "8",
        _ => "9",
    };
    assert(text@ =~= seq![digit(d as nat)]);
    text
}

/// Appends the decimal numeral of `n` to `out`.
pub fn push_numeral(out: &mut String, n: usize)
    ensures
        final(out)@ == old(out)@ + numeral(n as nat),
    decreases n,
{
    if n >= 10 {
        push_numeral(out, n / 10);
    }
    out.append(digit_text(n % 10));
    proof {
        if n >= 10 {
            assert(old(out)@ + numeral((n / 10) as nat) + seq![digit((n % 10) as nat)] =~= old(
                out,
            )@ + numeral(n as nat));
        }
    }
}

} // verus!
