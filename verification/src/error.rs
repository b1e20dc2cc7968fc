//! The ways a request can fail.

use vstd::prelude::*;

verus! {

/// Why a request failed. Nothing is retried: each value goes back to the
/// caller as it is.
#[derive(Clone, Copy, Debug, PartialEq, Eq, Structural)]
pub enum QueryError {
    /// A query string or one of its parameters is malformed.
    ParseError,
    /// An operator or direction tag that the translators do not know.
    UnsupportedOperatorError,
    /// The storage engine refused or failed a statement.
    ExecutionError,
    /// What a row holds cannot be decoded.
    DecodeError,
    /// A record lacks the column it was to be keyed by.
    MissingKeyError,
}

} // verus!
