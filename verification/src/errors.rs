//! The error kinds that core operations surface.

use vstd::prelude::*;

verus! {

/// Every failure a core operation can report.  Store-level variants carry the
/// underlying cause text; the input-validation variants carry nothing, since
/// their cause is fully determined by the rejected input.
#[derive(Debug)]
pub enum CoreError {
    /// Exclusive access to the shared connection could not be acquired.
    LockUnavailable,
    /// A free-text date did not parse as `YYYY-MM-DD`.
    InvalidDateFormat,
    /// A weight value was non-numeric or not positive.
    InvalidWeightValue,
    /// The store refused to prepare a statement.
    StorePrepareFailure(String),
    /// The store refused to run a statement.
    StoreExecutionFailure(String),
    /// A fetched row could not be decoded.
    RowDecodeFailure(String),
}

impl CoreError {
    /// A short fixed label for the kind of failure, for user-facing status text.
    pub fn kind_label(&self) -> (r: &'static str)
        ensures
            self is LockUnavailable ==> r@ == "failed to acquire db lock"@,
            self is InvalidDateFormat ==> r@ == "invalid date format. use yyyy-mm-dd."@,
            self is InvalidWeightValue ==> r@ == "weight must be a positive number."@,
            self is StorePrepareFailure ==> r@ == "error preparing statement"@,
            self is StoreExecutionFailure ==> r@ == "error running statement"@,
            self is RowDecodeFailure ==> r@ == "error decoding row"@,
    {
        match self {
            CoreError::LockUnavailable => "failed to acquire db lock",
            CoreError::InvalidDateFormat => "invalid date format. use yyyy-mm-dd.",
            CoreError::InvalidWeightValue => "weight must be a positive number.",
            CoreError::StorePrepareFailure(_) => "error preparing statement",
            CoreError::StoreExecutionFailure(_) => "error running statement",
            CoreError::RowDecodeFailure(_) => "error decoding row",
        }
    }
}

} // verus!
