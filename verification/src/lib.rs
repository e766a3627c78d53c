//! Dense vectors and matrices over a number type of the caller's choice.
//!
//! A [`Vector`] is a fixed-length sequence of numbers. A [`Matrix`] is a list of
//! equally long vectors tagged with a [`Shape`]: the vectors are its rows or its
//! columns. On top of these stand the elementwise combinators of [`FP`], sums,
//! differences and products, and the operations of [`LinearAlgebra`].
//!
//! The numbers are any type with the operations of [`Scalar`]; the norms ask
//! for those of [`Real`] as well. The 64-bit integers with wrapping arithmetic
//! are a `Scalar` out of the box.
pub mod algebra;
pub mod error;
pub mod fold;
pub mod grid;
pub mod laws;
pub mod operation;
pub mod scalar;
pub mod structure;

pub use algebra::linear_algebra::Norm::{Frobenius, Infinity, One, PQ};
pub use algebra::linear_algebra::{LinearAlgebra, Norm, Perms};
pub use error::AlgebraError;
pub use operation::fp::FP;
pub use scalar::{Real, Scalar};
pub use structure::matrix::Shape::{Col, Row};
pub use structure::matrix::{Matrix, Shape};
pub use structure::vector::Vector;
