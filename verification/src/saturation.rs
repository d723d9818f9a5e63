//! Whether a hydrocarbon is saturated.
use crate::counter::{count_in, Counter, Counts};
use crate::isotope::{carbon, hydrogen, Isotope};
use vstd::prelude::*;
use vstd::string::*;

verus! {

/// The two states of saturation.
#[derive(Clone, Copy, Debug, PartialEq, Eq, Structural, PartialOrd, Ord, Hash)]
pub enum Saturation {
    Saturated,
    Unsaturated,
}

/// The degree of unsaturation of `carbon` carbon atoms with `hydrogen`
/// hydrogen atoms: the carbon count less half the hydrogen count, the half
/// rounded down. Where the half is the greater, the degree is zero.
pub open spec fn unsaturation(carbon: usize, hydrogen: usize) -> usize {
    if carbon >= hydrogen / 2 {
        (carbon - hydrogen / 2) as usize
    } else {
        0
    }
}

/// The degree of unsaturation of what a counter holds.
pub open spec fn unsaturation_of(counts: Counts) -> usize {
    unsaturation(count_in(counts, carbon().key()), count_in(counts, hydrogen().key()))
}

/// The state that a degree of unsaturation means: saturated at zero.
pub open spec fn saturation_at(degree: usize) -> Saturation {
    if degree == 0 {
        Saturation::Saturated
    } else {
        Saturation::Unsaturated
    }
}

impl Saturation {
    /// The state as text: one letter, or the whole word where `verbose`.
    pub fn render(&self, verbose: bool) -> (text: String)
        ensures
            text@ == match (*self, verbose) {
                (Saturation::Saturated, false) => "S"@,
                (Saturation::Unsaturated, false) => "U"@,
                (Saturation::Saturated, true) => "Saturated"@,
                (Saturation::Unsaturated, true) => "Unsaturated"@,
            },
    {
        match self {
            Saturation::Saturated => if verbose {
                String::from_str("Saturated")
            } else {
                String::from_str("S")
            },
            Saturation::Unsaturated => if verbose {
                String::from_str("Unsaturated")
            } else {
                String::from_str("U")
            },
        }
    }

    /// The state as one letter: `S` or `U`.
    pub fn to_string(&self) -> (text: String)
        ensures
            text@ == match *self {
                Saturation::Saturated => "S"@,
                Saturation::Unsaturated => "U"@,
            },
    {
        self.render(false)
    }
}

/// What has a degree of unsaturation, and with it a state of saturation.
pub trait Saturable {
    /// The degree of unsaturation.
    spec fn degree(&self) -> usize;

    /// Computes the degree of unsaturation.
    fn unsaturated(&self) -> (degree: usize)
        ensures
            degree == self.degree(),
    ;

    /// Whether the degree of unsaturation is zero.
    fn saturated(&self) -> (saturated: bool)
        ensures
            saturated == (self.degree() == 0),
    {
        self.unsaturated() == 0
    }

    /// The state of saturation.
    fn saturation(&self) -> (state: Saturation)
        ensures
            state == saturation_at(self.degree()),
    {
        if self.saturated() {
            Saturation::Saturated
        } else {
            Saturation::Unsaturated
        }
    }
}

impl Saturable for Counter {
    open spec fn degree(&self) -> usize {
        unsaturation_of(self@)
    }

    fn unsaturated(&self) -> (degree: usize) {
        let carbon = self.count(Isotope::c());
        let half = self.count(Isotope::h()) / 2;
        if carbon >= half {
            carbon - half
        } else {
            0
        }
    }
}

} // verus!
