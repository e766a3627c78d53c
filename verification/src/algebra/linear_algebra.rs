//! Norms, transposition and the decompositions of a matrix.
use crate::error::AlgebraError;
use vstd::prelude::*;

verus! {

/// The kinds of matrix norm.
#[derive(Debug, Copy, Clone)]
pub enum Norm {
    /// The square root of the sum of the squares of all entries.
    Frobenius,
    /// The entrywise norm with inner exponent `p` and outer exponent `q`,
    /// over the magnitudes of the entries.
    PQ(usize, usize),
    /// The greatest among the sums of the magnitudes of each column.
    One,
    /// The greatest among the sums of the magnitudes of each row.
    Infinity,
}

/// Row exchanges, as pairs of places.
pub type Perms = Vec<(usize, usize)>;

/// The operations of linear algebra.
pub trait LinearAlgebra: Sized {
    /// The numbers that norms and determinants are.
    type Scalar;

    /// Whether `other` is the transpose of `self`.
    spec fn transposes_to(&self, other: &Self) -> bool;

    /// Whether `value` is a norm of `self` of the given kind.
    spec fn has_norm(&self, norm: Norm, value: Self::Scalar) -> bool;

    /// The transpose.
    fn transpose(&self) -> (r: Self)
        ensures
            self.transposes_to(&r),
    ;

    /// Short for `transpose`.
    fn t(&self) -> (r: Self)
        ensures
            self.transposes_to(&r),
    ;

    /// The norm of the given kind.
    fn norm(&self, norm: Norm) -> (r: Self::Scalar)
        ensures
            self.has_norm(norm, r),
    ;

    /// The determinant.
    fn det(&self) -> Result<Self::Scalar, AlgebraError>;

    /// The LU decomposition with its row and column exchanges.
    fn lu(&self) -> Result<Option<(Perms, Perms, Self, Self)>, AlgebraError>;

    /// The four blocks of the matrix.
    fn block(&self) -> Result<(Self, Self, Self, Self), AlgebraError>;

    /// The inverse.
    fn inv(&self) -> Result<Option<Self>, AlgebraError>;

    /// The pseudo-inverse.
    fn pseudo_inv(&self) -> Result<Option<Self>, AlgebraError>;
}

} // verus!
