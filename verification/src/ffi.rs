//! What a foreign caller is told: the outcome of a call as a number.

use vstd::prelude::*;

verus! {

/// Outcomes of a call from foreign code.
#[derive(Debug, Clone, Copy, PartialEq, Eq, Structural)]
pub enum FfiError {
    /// Operation succeeded.
    Success,
    /// Null pointer passed as argument.
    NullPointer,
    /// A string is not valid UTF-8.
    InvalidUtf8,
    /// The database could not be opened.
    InitFailed,
    /// The database was not opened before it was used.
    NotInitialized,
    /// The search failed.
    SearchFailed,
    /// The result could not be written as JSON.
    JsonFailed,
}

impl FfiError {
    /// The number that stands for this outcome: zero for success, and the
    /// failures counted from one in the order they are declared in.
    pub open spec fn code_of(self) -> i32 {
        match self {
            FfiError::Success => 0,
            FfiError::NullPointer => 1,
            FfiError::InvalidUtf8 => 2,
            FfiError::InitFailed => 3,
            FfiError::NotInitialized => 4,
            FfiError::SearchFailed => 5,
            FfiError::JsonFailed => 6,
        }
    }

    /// The number that stands for this outcome.
    pub fn code(self) -> (code: i32)
        ensures
            code == self.code_of(),
            (code == 0) == (self == FfiError::Success),
    {
        match self {
            FfiError::Success => 0,
            FfiError::NullPointer => 1,
            FfiError::InvalidUtf8 => 2,
            FfiError::InitFailed => 3,
            FfiError::NotInitialized => 4,
            FfiError::SearchFailed => 5,
            FfiError::JsonFailed => 6,
        }
    }
}

} // verus!
