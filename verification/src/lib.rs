//! Construction of a single spreadsheet row: bijective base-26 column
//! references, per-row reference allocation and validation, and emission of
//! the row as a markup element.

use vstd::prelude::*;

pub mod cell;
pub mod column;
pub mod numtext;
pub mod reference;
pub mod row;
pub mod xml;

verus! {

/// The failures that row operations report. Every failure is returned to the
/// caller; no operation panics and every failed operation leaves the row
/// unchanged.
#[derive(Clone, Copy, Debug, PartialEq, Eq, Structural)]
pub enum RowError {
    /// A reference string with an empty column or row partition, or whose
    /// column letters do not decode (or whose column does not fit in `usize`).
    InvalidReference,
    /// An explicit insertion reuses a reference already present in the row.
    DuplicateReference,
    /// A reference's row component does not equal the row's own number.
    RowMismatch,
    /// An explicit insertion was given a cell with no assigned reference.
    MissingReference,
    /// A numeric cell's text is not a valid floating-point literal.
    NumberParse,
}

} // verus!
