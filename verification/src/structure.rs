//! The data types.
pub mod matrix;
pub mod vector;
