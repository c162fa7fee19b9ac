use vstd::prelude::*;

verus! {

/// Why a call was rejected. Every error is fatal to that one call: nothing
/// is returned or changed besides the error.
#[derive(Clone, Copy, Debug, PartialEq, Eq, Structural)]
pub enum UtilsError {
    /// An index does not address a row, a column or a fold.
    IndexOutOfRange,
    /// A vector's length, or a row's, does not fit the matrix it is paired with.
    DimensionMismatch,
    /// A singular value decomposition did not converge.
    DecompositionFailure,
    /// A criterion tag is neither "AIC" nor "BIC".
    InvalidCriterion,
    /// There is nothing to average over, or a fold would be empty.
    DegenerateInput,
}

impl UtilsError {
    /// A short description of the error.
    pub fn message(&self) -> (text: &'static str)
        ensures
            text@ == (match *self {
                UtilsError::IndexOutOfRange => "index out of range"@,
                UtilsError::DimensionMismatch => "dimension mismatch"@,
                UtilsError::DecompositionFailure => "singular value decomposition failed"@,
                UtilsError::InvalidCriterion => "invalid information criterion"@,
                UtilsError::DegenerateInput => "degenerate input"@,
            }),
    {
        match self {
            UtilsError::IndexOutOfRange => "index out of range",
            UtilsError::DimensionMismatch => "dimension mismatch",
            UtilsError::DecompositionFailure => "singular value decomposition failed",
            UtilsError::InvalidCriterion => "invalid information criterion",
            UtilsError::DegenerateInput => "degenerate input",
        }
    }
}

} // verus!
