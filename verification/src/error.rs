//! The ways an operation on vectors and matrices can be refused.
use vstd::prelude::*;

verus! {

/// Why an operation returned no value.
#[derive(Debug, Clone, Copy, PartialEq, Eq)]
pub enum AlgebraError {
    /// The operands' lengths or dimensions do not fit the operation, or the
    /// vectors handed over do not form a rectangle.
    DimensionMismatch,
    /// The operation is declared but has no algorithm behind it.
    NotImplemented,
}

} // verus!
