//! A dense matrix library with exact integer entries.
//!
//! Shapes are described by [`Dimensions`]; a [`Matrix`] owns a flat,
//! row-major buffer whose length always equals the number of entries its
//! shape calls for. Construction, element access, arithmetic, structural
//! classification and a cofactor-expansion determinant are all specified
//! against a mathematical view of the buffer and verified.

pub mod arith;
pub mod determinant;
pub mod dimensions;
pub mod error;
pub mod laws;
pub mod matrix;

pub use crate::dimensions::Dimensions;
pub use crate::error::ErrorKind;
pub use crate::matrix::Matrix;
