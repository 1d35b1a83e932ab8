//! Failures that the library reports.

use vstd::prelude::*;

verus! {

/// Why an operation did not produce a result.
#[derive(Clone, Copy, PartialEq, Eq, Structural, Debug)]
pub enum Error {
    /// Arguments that do not fit together: mismatched lengths, an empty
    /// domain.
    InvalidInput,
    /// A transcript element was read before it was added.
    MissingElement,
    /// A challenge was read before it was derived.
    MissingChallenge,
    /// A transcript element was read as a type that its bytes do not spell.
    TypeMismatch,
    /// The transcript was driven against its manifest.
    ProtocolError,
    /// A group element of a proof is off the curve or is the point at
    /// infinity where that is not allowed.
    InvalidProof,
    /// More points were asked of a reference string than it holds.
    InsufficientSrs,
    /// Persisted bytes that do not spell a value.
    SerializationError,
}

/// Why a proof was rejected.
#[derive(Clone, Copy, PartialEq, Eq, Structural, Debug)]
pub enum RejectReason {
    InvalidPoint,
    MissingChallenge,
    PairingMismatch,
    SrsExceeded,
}

/// The outcome of a verification.
#[derive(Clone, Copy, PartialEq, Eq, Structural, Debug)]
pub enum Verdict {
    Accept,
    Reject(RejectReason),
}

} // verus!
