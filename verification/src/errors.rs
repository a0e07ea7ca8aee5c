//! The error taxonomy shared by every operation of the library.

use vstd::prelude::*;

verus! {

/// Why an operation was refused or failed.
#[derive(Clone, Copy, Debug, PartialEq, Eq, Structural)]
pub enum AppError {
    /// A required field (title, body, comment text, media set) was empty.
    ValidationError,
    /// The referenced article or comment does not exist.
    NotFound,
    /// The submitted credential does not match the configured secret.
    Unauthorized,
    /// Persisting an uploaded media payload failed.
    StorageWriteError,
    /// The edit workflow was asked for an unrecognized phase.
    InvalidRequest,
    /// The underlying store failed for a reason outside the other kinds.
    DependencyError,
}

impl AppError {
    /// A short human-readable description, for callers that render responses.
    pub fn message(&self) -> (r: &'static str)
        ensures
            r@ == self.spec_message(),
    {
        match self {
            AppError::ValidationError => "a required field is empty",
            AppError::NotFound => "not found",
            AppError::Unauthorized => "incorrect password",
            AppError::StorageWriteError => "failed to store media",
            AppError::InvalidRequest => "invalid mode",
            AppError::DependencyError => "the store failed",
        }
    }

    /// The description `message` returns, as a sequence of characters.
    pub open spec fn spec_message(self) -> Seq<char> {
        match self {
            AppError::ValidationError => "a required field is empty"@,
            AppError::NotFound => "not found"@,
            AppError::Unauthorized => "incorrect password"@,
            AppError::StorageWriteError => "failed to store media"@,
            AppError::InvalidRequest => "invalid mode"@,
            AppError::DependencyError => "the store failed"@,
        }
    }
}

} // verus!
