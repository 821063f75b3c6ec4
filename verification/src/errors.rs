//! The error taxonomy shared by the store, the tokenizer and the guard.

use vstd::prelude::*;

verus! {

/// Typed outcome of every fallible operation in the library. Callers
/// receive a classification, never internal detail such as hashes or key
/// material.
#[derive(Debug, Clone)]
pub enum Error {
    /// A lookup, update or delete matched no stored row.
    NotFound,
    /// An insert collided with an existing username.
    DuplicateKey,
    /// An update or delete touched a row count other than exactly one:
    /// a store-integrity bug, surfaced loudly rather than coerced away.
    InvalidResult(String),
    /// A presented token failed its signature or expiry check.
    InvalidToken,
    /// A token could not be issued (the expiration instant would not fit).
    TokenGeneration,
    /// Missing, malformed, forged, expired or superseded credentials.
    UnauthenticatedUser,
    /// A valid, current session that lacks the administrator privilege.
    ForbiddenAccess,
    /// A malformed request payload, such as a wrong current password.
    BadRequest(String),
    /// An unexpected dependency failure.
    InternalError,
    /// A request for a route that does not exist.
    UnknownRoute,
}

} // verus!
