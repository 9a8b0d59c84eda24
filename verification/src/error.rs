use vstd::prelude::*;

verus! {

/// The ways an operation of this library can fail.
///
/// Shape problems (rows of unequal length, operands whose dimensions do
/// not agree, a buffer whose length does not match its declared shape)
/// are reported as `DimensionsIncorrct` together with a message; dividing
/// a matrix by the zero scalar is reported as `DividedByZero`. No
/// operation aborts on caller-supplied input.
#[derive(Debug, Clone)]
pub enum ErrorKind {
    DimensionsIncorrct(String),
    DividedByZero,
}

} // verus!
