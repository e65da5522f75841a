//! The error taxonomy of the service.

use vstd::prelude::*;

verus! {

/// Everything a handler or store operation can fail with.
///
/// Store and cache transport failures are wrapped and surfaced as `Internal`
/// unless a component maps them explicitly (a missing document becomes
/// `NotFound`, not `Internal`).  `TooManyRequests` is scaffolding for a rate
/// limiter that is not wired to any endpoint.
#[derive(Debug)]
pub enum Error {
    /// A freezer or product key that is not present.
    NotFound(String),
    /// Missing identity, undecodable identity, or a role outside the
    /// endpoint's required set.
    Unauth(String),
    /// A domain rule violation, e.g. the quantity policy on put-out.
    LogicError(String),
    /// Reserved for a rate limiter.
    TooManyRequests { actual: u64, permitted: u64 },
    /// A store or cache failure surfaced upward.
    Internal(String),
}

impl Error {
    /// The HTTP status each error kind surfaces as.
    pub open spec fn spec_status_code(self) -> u16 {
        match self {
            Error::NotFound(_) => 404,
            Error::Unauth(_) => 401,
            Error::LogicError(_) => 422,
            Error::TooManyRequests { .. } => 429,
            Error::Internal(_) => 500,
        }
    }

    /// Maps the error to its HTTP status code.
    pub fn status_code(&self) -> (code: u16)
        ensures
            code == self.spec_status_code(),
    {
        match self {
            Error::NotFound(_) => 404,
            Error::Unauth(_) => 401,
            Error::LogicError(_) => 422,
            Error::TooManyRequests { .. } => 429,
            Error::Internal(_) => 500,
        }
    }
}

} // verus!
