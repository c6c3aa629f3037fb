//! Columnar data building blocks: a dictionary-encoded byte array for
//! low-cardinality string/binary/categorical data, and a fixed-length
//! numeric column overlaid with a validity bitmap.

use vstd::prelude::*;

pub mod bits;
pub mod categorical;
pub mod column;
pub mod dataframe;
pub mod int8;
pub mod parallel;
pub mod string_column;

verus! {

/// An operation on a column was rejected.
#[derive(Debug, Clone, Copy, PartialEq, Eq, Structural)]
pub enum Error {
    /// A position outside the valid bound was given to `insert` or `remove`.
    OutOfRange,
    /// A masked column was built from value and validity sequences of
    /// unequal length.
    LengthMismatch,
}

} // verus!
