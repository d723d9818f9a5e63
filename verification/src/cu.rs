//! The shorthand `c:u` of a hydrocarbon chain: its number of carbon atoms
//! and its degree of unsaturation.
use crate::counter::{count_in, merged, positive, Counter, Counts};
use crate::digits::{numeral, push_numeral};
use crate::isotope::{carbon, hydrogen, Isotope};
use crate::saturation::{unsaturation_of, Saturable};
use vstd::prelude::*;
use vstd::std_specs::convert::FromSpecImpl;
use vstd::string::*;

verus! {

/// A carbon count and a degree of unsaturation.
#[derive(Clone, Copy, Debug, PartialEq, Eq, Structural, PartialOrd, Ord, Hash)]
pub struct Cu {
    /// The number of carbon atoms.
    pub c: usize,
    /// The degree of unsaturation.
    pub u: usize,
}

/// The hydrogen count of a chain: `2c - 2u`, held within the range of
/// `usize`. It is zero where `u` is more than `c`, and `usize::MAX` where
/// the difference is more than that.
pub open spec fn hydrogens(c: usize, u: usize) -> usize {
    if u >= c {
        0
    } else if 2 * (c - u) > usize::MAX {
        usize::MAX
    } else {
        (2 * (c - u)) as usize
    }
}

/// What the counter of a chain holds: its carbon atoms and its hydrogen
/// atoms, each left out where there are none.
pub open spec fn counts_of(cu: Cu) -> Counts {
    merged(
        merged(Map::empty(), carbon().key(), cu.c),
        hydrogen().key(),
        hydrogens(cu.c, cu.u),
    )
}

/// The shorthand of what a counter holds: its carbon count and its degree
/// of unsaturation.
pub open spec fn shorthand(counts: Counts) -> Cu {
    Cu { c: count_in(counts, carbon().key()), u: unsaturation_of(counts) }
}

impl Default for Cu {
    fn default() -> (cu: Cu)
        ensures
            cu == (Cu { c: 0, u: 0 }),
    {
        Cu { c: 0, u: 0 }
    }
}

impl Cu {
    /// The hydrogen count.
    pub fn h(&self) -> (h: usize)
        ensures
            h == hydrogens(self.c, self.u),
    {
        if self.u >= self.c {
            0
        } else {
            let d = self.c - self.u;
            d.saturating_add(d)
        }
    }

    /// The shorthand as text: the two numbers with a colon between them.
    pub fn to_string(&self) -> (text: String)
        ensures
            text@ == numeral(self.c as nat) + seq![':'] + numeral(self.u as nat),
    {
        let mut text = String::new();
        push_numeral(&mut text, self.c);
        proof {
            reveal_strlit(":");
            assert(":"@ =~= seq![':']);
        }
        text.append(":");
        push_numeral(&mut text, self.u);
        text
    }

    /// The counter of the chain: `c` carbon atoms and `h()` hydrogen atoms.
    pub fn to_counter(&self) -> (counter: Counter)
        ensures
            counter@ == counts_of(*self),
            positive(counter@),
    {
        let mut counter = Counter::default();
        counter.merge(Isotope::c(), self.c);
        counter.merge(Isotope::h(), self.h());
        counter
    }
}

impl From<(usize, usize)> for Cu {
    fn from(value: (usize, usize)) -> (cu: Cu) {
        Cu { c: value.0, u: value.1 }
    }
}

impl FromSpecImpl<(usize, usize)> for Cu {
    open spec fn obeys_from_spec() -> bool {
        true
    }

    open spec fn from_spec(value: (usize, usize)) -> Cu {
        Cu { c: value.0, u: value.1 }
    }
}

impl From<Cu> for (usize, usize) {
    fn from(value: Cu) -> (pair: (usize, usize)) {
        (value.c, value.u)
    }
}

impl FromSpecImpl<Cu> for (usize, usize) {
    open spec fn obeys_from_spec() -> bool {
        true
    }

    open spec fn from_spec(value: Cu) -> (usize, usize) {
        (value.c, value.u)
    }
}

impl From<Cu> for Counter {
    /// The counter of the chain: `c` carbon atoms and `h()` hydrogen atoms.
    fn from(value: Cu) -> (counter: Counter)
        ensures
            counter@ == counts_of(value),
            positive(counter@),
    {
        value.to_counter()
    }
}

impl FromSpecImpl<Cu> for Counter {
    /// A counter is known by what it holds, not as a value of its own, so the
    /// conversion is stated on `from` itself, not here.
    open spec fn obeys_from_spec() -> bool {
        false
    }

    open spec fn from_spec(value: Cu) -> Counter {
        choose|counter: Counter| counter@ == counts_of(value)
    }
}

impl<'a> From<&'a Counter> for Cu {
    fn from(value: &'a Counter) -> (cu: Cu) {
        Cu { c: value.count(Isotope::c()), u: value.unsaturated() }
    }
}

impl<'a> FromSpecImpl<&'a Counter> for Cu {
    open spec fn obeys_from_spec() -> bool {
        true
    }

    open spec fn from_spec(value: &'a Counter) -> Cu {
        shorthand(value@)
    }
}

/// The shorthand of the counter of a chain is the chain again, for a chain
/// whose degree of unsaturation is no more than its carbon count and whose
/// hydrogen count `2c - 2u` fits in `usize`.
pub proof fn law_shorthand_round_trip(cu: Cu)
    requires
        cu.u <= cu.c,
        2 * (cu.c - cu.u) <= usize::MAX,
    ensures
        shorthand(counts_of(cu)) == cu,
{
}

} // verus!
