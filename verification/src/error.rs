//! Canonical error codes.

use vstd::prelude::*;

verus! {

/// The canonical code that an error is reported under.
#[derive(Debug, Clone, Copy, PartialEq, Eq, Structural)]
pub enum ErrorCode {
    InvalidArgument,
    NotFound,
    PermissionDenied,
    Unauthenticated,
    ResourceExhausted,
    Internal,
}

impl ErrorCode {
    /// The name of the code, as characters.
    pub open spec fn name(&self) -> Seq<char> {
        match self {
            ErrorCode::InvalidArgument => "INVALID_ARGUMENT"@,
            ErrorCode::NotFound => "NOT_FOUND"@,
            ErrorCode::PermissionDenied => "PERMISSION_DENIED"@,
            ErrorCode::Unauthenticated => "UNAUTHENTICATED"@,
            ErrorCode::ResourceExhausted => "RESOURCE_EXHAUSTED"@,
            ErrorCode::Internal => "INTERNAL"@,
        }
    }

    /// The name of the code.
    pub fn as_str(&self) -> (s: &'static str)
        ensures
            s@ == self.name(),
    {
        match self {
            ErrorCode::InvalidArgument => "INVALID_ARGUMENT",
            ErrorCode::NotFound => "NOT_FOUND",
            ErrorCode::PermissionDenied => "PERMISSION_DENIED",
            ErrorCode::Unauthenticated => "UNAUTHENTICATED",
            ErrorCode::ResourceExhausted => "RESOURCE_EXHAUSTED",
            ErrorCode::Internal => "INTERNAL",
        }
    }

    /// The name of the code, as an owned string.
    pub fn to_string(&self) -> (s: String)
        ensures
            s@ == self.name(),
    {
        self.as_str().to_owned()
    }
}

/// An error that maps to a canonical code.
pub trait AlayasikiError {
    /// The code of the error, as a mathematical value.
    spec fn code(&self) -> ErrorCode;

    fn error_code(&self) -> (c: ErrorCode)
        ensures
            c == self.code(),
    ;
}

} // verus!
