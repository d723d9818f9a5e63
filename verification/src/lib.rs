//! Chemical formulas and small molecular graphs.
//!
//! A [`Counter`] is a multiset of isotopes, read from and written to formula
//! text such as `C2H5OH` with the help of a [`Table`] of element symbols.
//! [`Cu`] is the carbon-number:unsaturation shorthand, [`Saturation`] the
//! classification derived from it, and [`Molecule`] a graph of atoms and
//! bonds with a small library of alkanes and alkenes.
pub mod accumulation;
pub mod counter;
pub mod cu;
pub mod digits;
pub mod error;
pub mod formula;
pub mod graph;
pub mod isotope;
pub mod matching;
pub mod molecule;
pub mod ordered;
pub mod round_trip;
pub mod saturation;
pub mod table;

pub use counter::Counter;
pub use cu::Cu;
pub use error::Error;
pub use isotope::Isotope;
pub use molecule::Molecule;
pub use saturation::{Saturable, Saturation};
pub use table::Table;
