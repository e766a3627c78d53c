//! Operations of linear algebra.
pub mod linear_algebra;
pub mod norm;
