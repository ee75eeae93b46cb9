//! The library's error type.

use vstd::prelude::*;

verus! {

/// Why a core operation failed.
///
/// Every failure carries a human-readable message; the variant says which
/// kind of failure it was, so callers can react without parsing the text.
#[derive(Debug, Clone)]
pub enum CoreError {
    /// An id (or id prefix) matched no stored row.
    NotFound(String),
    /// An id prefix matched more than one stored row.
    Ambiguous(String),
    /// The caller handed in a value the operation rejects.
    InvalidInput(String),
    /// The requested state change is forbidden by the transition rules.
    InvalidTransition(String),
    /// An external subprocess failed or produced output the core rejects.
    SubprocessFailure(String),
}

impl CoreError {
    /// The message carried by this error.
    pub fn message(&self) -> (r: &String)
        ensures
            r@ == self.text(),
    {
        match self {
            CoreError::NotFound(m) => m,
            CoreError::Ambiguous(m) => m,
            CoreError::InvalidInput(m) => m,
            CoreError::InvalidTransition(m) => m,
            CoreError::SubprocessFailure(m) => m,
        }
    }

    /// The message, as a mathematical value.
    pub open spec fn text(&self) -> Seq<char> {
        match self {
            CoreError::NotFound(m) => m@,
            CoreError::Ambiguous(m) => m@,
            CoreError::InvalidInput(m) => m@,
            CoreError::InvalidTransition(m) => m@,
            CoreError::SubprocessFailure(m) => m@,
        }
    }
}

pub type CoreResult<T> = Result<T, CoreError>;

} // verus!
