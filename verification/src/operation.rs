//! Operations that apply to vectors and matrices alike.
pub mod fp;
