//! The identity of an atomic species.
use vstd::prelude::*;

verus! {

/// An atomic species: an element, named by its number of protons, and one of
/// its isotopes, named by its number of nucleons.
///
/// Isotopes are ordered by element first and by mass within an element. The
/// [`key`](Isotope::key) of an isotope is a single integer with that order.
#[derive(Clone, Copy, Debug, PartialEq, Eq, Structural, PartialOrd, Ord, Hash)]
pub struct Isotope {
    /// The atomic number.
    pub protons: u16,
    /// The mass number.
    pub nucleons: u16,
}

/// Hydrogen-1.
pub open spec fn hydrogen() -> Isotope {
    Isotope { protons: 1, nucleons: 1 }
}

/// Carbon-12.
pub open spec fn carbon() -> Isotope {
    Isotope { protons: 6, nucleons: 12 }
}

impl Isotope {
    /// The integer that stands for the isotope where isotopes are sorted.
    pub open spec fn key(self) -> u32 {
        (self.protons as u32 * 65536 + self.nucleons as u32) as u32
    }

    /// The isotope that a key stands for.
    pub open spec fn of_key(key: u32) -> Isotope {
        Isotope { protons: (key / 65536) as u16, nucleons: (key % 65536) as u16 }
    }

    /// The isotope with the given atomic number and mass number.
    pub fn new(protons: u16, nucleons: u16) -> (isotope: Isotope)
        ensures
            isotope == (Isotope { protons, nucleons }),
    {
        Isotope { protons, nucleons }
    }

    /// Hydrogen-1.
    pub fn h() -> (isotope: Isotope)
        ensures
            isotope == hydrogen(),
    {
        Isotope { protons: 1, nucleons: 1 }
    }

    /// Carbon-12.
    pub fn c() -> (isotope: Isotope)
        ensures
            isotope == carbon(),
    {
        Isotope { protons: 6, nucleons: 12 }
    }

    /// Computes the key.
    pub fn to_key(&self) -> (key: u32)
        ensures
            key == self.key(),
            Isotope::of_key(key) == *self,
    {
        self.protons as u32 * 65536 + self.nucleons as u32
    }

    /// Recovers the isotope from its key.
    pub fn from_key(key: u32) -> (isotope: Isotope)
        ensures
            isotope == Isotope::of_key(key),
            isotope.key() == key,
    {
        Isotope { protons: (key / 65536) as u16, nucleons: (key % 65536) as u16 }
    }

    /// Whether `self` comes before `other`: a lighter element, or the same
    /// element with fewer nucleons.
    pub fn precedes(&self, other: &Isotope) -> (before: bool)
        ensures
            before == (self.key() < other.key()),
    {
        self.protons < other.protons || (self.protons == other.protons && self.nucleons
            < other.nucleons)
    }
}

/// Keys and isotopes correspond one to one.
pub proof fn lemma_key_bijective(isotope: Isotope, key: u32)
    ensures
        Isotope::of_key(isotope.key()) == isotope,
        Isotope::of_key(key).key() == key,
{
}

/// Distinct isotopes have distinct keys.
pub proof fn law_keys_tell_isotopes_apart(a: Isotope, b: Isotope)
    requires
        a.key() == b.key(),
    ensures
        a == b,
{
    lemma_key_bijective(a, 0);
    lemma_key_bijective(b, 0);
}

} // verus!
