//! The failures an array operation can report.
use vstd::prelude::*;

verus! {

/// Why an operation refused its input.
///
/// Every failure is reported by the call that was handed the offending
/// input; nothing is retried and no partly built array is ever returned.
#[derive(Clone, Copy, Debug, PartialEq, Eq, Structural)]
pub enum ArrayError {
    /// The shape has no dimension or more than four, its element count does
    /// not fit the machine, or it disagrees with the number of elements.
    ShapeError,
    /// The two operands of a binary operation have different shapes.
    ShapeMismatchError,
    /// The operation needs at least one element and was given none.
    EmptyArrayError,
}

impl ArrayError {
    /// A short description of the failure, for messages.
    pub fn describe(&self) -> (text: &'static str)
        ensures
            text@ == (match *self {
                ArrayError::ShapeError => "shape does not fit the data"@,
                ArrayError::ShapeMismatchError => "operands differ in shape"@,
                ArrayError::EmptyArrayError => "array has no elements"@,
            }),
    {
        match self {
            ArrayError::ShapeError => "shape does not fit the data",
            ArrayError::ShapeMismatchError => "operands differ in shape",
            ArrayError::EmptyArrayError => "array has no elements",
        }
    }
}

} // verus!
