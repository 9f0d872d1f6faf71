//! Error taxonomy of the core.
//!
//! Malformed user arguments travel as explanation strings back to the
//! invoking user; policy refusals are `PolicyError`; upstream failures of
//! the scoring API are `CustomClientError`, with the retry-limit case
//! surfaced to users like any other upstream failure; a cache miss is an
//! `Option` that triggers a fallback, never an error shown to anyone.

use vstd::prelude::*;

verus! {

/// What an upstream response failed to deserialize into.
#[derive(Clone, Copy, PartialEq, Eq, Structural, Debug)]
pub enum ErrorKind {
    Leaderboard,
}

impl ErrorKind {
    pub fn text(self) -> (r: &'static str)
        ensures
            r@ == "leaderboard"@,
    {
        match self {
            ErrorKind::Leaderboard => "leaderboard",
        }
    }
}

/// Failure of one logical outbound call to the scoring API.
pub enum CustomClientError {
    /// The response body did not parse as what was requested.
    Parsing { body: String, kind: ErrorKind },
    /// The backoff retry ceiling was exhausted.
    RetryLimit,
    /// A non-retryable client or server error status.
    Status { status: u16, url: String },
}

} // verus!
