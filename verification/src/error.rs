//! The ways in which an operation of this library can fail.

use vstd::prelude::*;

verus! {

/// Why an operation did not go through.
#[derive(Debug, Clone, Copy, PartialEq, Eq, Structural)]
pub enum JdError {
    /// An id, a code, a category or a range is not in the tree.
    NotFound,
    /// Two entries of one directory carry the same code.
    DuplicateCode,
    /// Every number of the scope is taken.
    ExhaustedCodeSpace,
    /// The source and the target of a move lie under different roots.
    CrossRootViolation,
    /// An input that the operation cannot do without was not given.
    MissingRequiredInput,
    /// The storage refused an operation.
    IoFailure,
}

impl JdError {
    /// A short message for the user.
    pub fn message(&self) -> (r: &'static str)
        ensures
            r@ == match *self {
                JdError::NotFound => "not found"@,
                JdError::DuplicateCode => "duplicate code among siblings"@,
                JdError::ExhaustedCodeSpace => "no free code"@,
                JdError::CrossRootViolation => "move across roots is not allowed"@,
                JdError::MissingRequiredInput => "a required input is missing"@,
                JdError::IoFailure => "storage failure"@,
            },
    {
        match self {
            JdError::NotFound => "not found",
            JdError::DuplicateCode => "duplicate code among siblings",
            JdError::ExhaustedCodeSpace => "no free code",
            JdError::CrossRootViolation => "move across roots is not allowed",
            JdError::MissingRequiredInput => "a required input is missing",
            JdError::IoFailure => "storage failure",
        }
    }
}

} // verus!
