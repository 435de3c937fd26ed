//! The error taxonomy of the classifier.
//!
//! Three kinds of failure are surfaced to the caller as distinct values and
//! never silently defaulted: invalid input (detected before any network
//! call), a transport-level failure (reported by the caller's transport), and
//! a response that arrived but does not carry a well-formed classification.

use vstd::prelude::*;

verus! {

/// Why a response that arrived at the transport level could not be turned
/// into a classification result.
#[derive(Debug, Clone, Copy, PartialEq, Eq)]
pub enum MalformedKind {
    /// `choices[0].message.content` is absent or is not a string.
    MissingContent,
    /// The content string is not a JSON object with exactly the two string
    /// fields `label` and `reason`.
    BadClassification,
}

/// A failure of one classification call.
#[derive(Debug, Clone, Copy, PartialEq, Eq)]
pub enum ClassifyError {
    /// The text is empty or whitespace-only, or the label set is empty.
    /// Detected before any request is built.
    InvalidInput,
    /// Connection failure, timeout, or a non-success HTTP status. The library
    /// never produces this value itself; it is the variant through which the
    /// caller's transport reports its own failures alongside the other kinds.
    TransportError,
    /// The response succeeded at the transport level but its content is
    /// missing or malformed.
    MalformedResponse(MalformedKind),
}

} // verus!
