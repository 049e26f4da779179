//! The error kinds that the fallible operations report.

use vstd::prelude::*;

verus! {

/// Why an operation could not be carried out. Every fallible operation
/// returns one of these rather than a default value.
#[derive(Debug, Clone, Copy, PartialEq, Eq, Structural)]
pub enum LinAlgError {
    /// Two vectors, or two matrices, combined elementwise differ in shape.
    DimensionMismatch,
    /// A matrix product whose inner dimensions differ.
    ShapeIncompatible,
    /// A matrix built from rows of unequal length.
    IrregularShape,
    /// An element access outside the bounds.
    IndexOutOfRange,
    /// A cross product of vectors that are not three-dimensional.
    UnsupportedDimension,
}

} // verus!
