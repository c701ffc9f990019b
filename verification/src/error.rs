//! Error taxonomy of the judge: stable reasons with numeric codes, HTTP
//! status codes, and wire identifiers.

use vstd::prelude::*;

verus! {

/// Why an operation failed.
#[derive(Clone, Copy, Debug, PartialEq, Eq, Structural)]
pub enum Reason {
    InvalidArgument,
    InvalidState,
    NotFound,
    RateLimit,
    External,
    Internal,
    Forbidden,
}

/// The stable numeric code of a reason.
pub open spec fn code_of(reason: Reason) -> u32 {
    match reason {
        Reason::InvalidArgument => 1,
        Reason::InvalidState => 2,
        Reason::NotFound => 3,
        Reason::RateLimit => 4,
        Reason::External => 5,
        Reason::Internal => 6,
        Reason::Forbidden => 7,
    }
}

/// The HTTP status code under which a reason is reported.
pub open spec fn status_of(reason: Reason) -> u16 {
    match reason {
        Reason::InvalidArgument => 400,
        Reason::InvalidState => 400,
        Reason::NotFound => 404,
        Reason::RateLimit => 400,
        Reason::External => 500,
        Reason::Internal => 500,
        Reason::Forbidden => 403,
    }
}

/// The wire identifier of a reason.
pub open spec fn text_of(reason: Reason) -> Seq<char> {
    match reason {
        Reason::InvalidArgument => "ERR_INVALID_ARGUMENT"@,
        Reason::InvalidState => "ERR_INVALID_STATE"@,
        Reason::NotFound => "ERR_NOT_FOUND"@,
        Reason::RateLimit => "ERR_RATE_LIMIT"@,
        Reason::External => "ERR_EXTERNAL"@,
        Reason::Internal => "ERR_INTERNAL"@,
        Reason::Forbidden => "ERR_FORBIDDEN"@,
    }
}

impl Reason {
    /// The wire identifier, `"ERR_"` followed by the reason's name.
    pub fn text(&self) -> (r: String)
        ensures
            r@ == text_of(*self),
    {
        match self {
            Reason::InvalidArgument => "ERR_INVALID_ARGUMENT".to_owned(),
            Reason::InvalidState => "ERR_INVALID_STATE".to_owned(),
            Reason::NotFound => "ERR_NOT_FOUND".to_owned(),
            Reason::RateLimit => "ERR_RATE_LIMIT".to_owned(),
            Reason::External => "ERR_EXTERNAL".to_owned(),
            Reason::Internal => "ERR_INTERNAL".to_owned(),
            Reason::Forbidden => "ERR_FORBIDDEN".to_owned(),
        }
    }
}

/// An error surfaced to a caller: a stable code, its reason, and a
/// human-readable message.
#[derive(Clone, Debug)]
pub struct Error {
    pub code: u32,
    pub reason: Reason,
    pub message: String,
}

impl Error {
    /// Create a new error; the code is determined by the reason.
    pub fn new(reason: Reason, message: String) -> (r: Error)
        ensures
            r.reason == reason,
            r.code == code_of(reason),
            r.message == message,
    {
        let code: u32 = match reason {
            Reason::InvalidArgument => 1,
            Reason::InvalidState => 2,
            Reason::NotFound => 3,
            Reason::RateLimit => 4,
            Reason::External => 5,
            Reason::Internal => 6,
            Reason::Forbidden => 7,
        };
        Error { code, reason, message }
    }

    /// The HTTP status code under which this error is reported.
    pub fn status_code(&self) -> (r: u16)
        ensures
            r == status_of(self.reason),
    {
        match self.reason {
            Reason::InvalidArgument => 400,
            Reason::InvalidState => 400,
            Reason::NotFound => 404,
            Reason::RateLimit => 400,
            Reason::External => 500,
            Reason::Internal => 500,
            Reason::Forbidden => 403,
        }
    }
}

} // verus!
