//! The ways in which reading a formula fails.
use vstd::prelude::*;

verus! {

/// Why a formula could not be read.
#[derive(Clone, Copy, Debug, PartialEq, Eq, Structural, Hash)]
pub enum Error {
    /// A symbol of the formula is not in the table of species.
    UnknownSpecies,
    /// A run of digits does not denote a positive count that fits in `usize`.
    MalformedCount,
}

impl Error {
    /// A sentence for the error.
    pub fn message(&self) -> (text: &'static str)
        ensures
            text@ == match *self {
                Error::UnknownSpecies => "unknown species"@,
                Error::MalformedCount => "malformed count"@,
            },
    {
        match self {
            Error::UnknownSpecies => "unknown species",
            Error::MalformedCount => "malformed count",
        }
    }
}

} // verus!
