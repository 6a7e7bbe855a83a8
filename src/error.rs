//! The errors of the library.
use vstd::prelude::*;

verus! {

/// An error related to RedJubjub signatures or to FROST threshold signing.
#[derive(Debug, Copy, Clone, PartialEq, Eq, Structural)]
pub enum Error {
    /// The encoding of a signing key was malformed.
    MalformedSigningKey,
    /// The encoding of a verification key was malformed, or it has small order.
    MalformedVerificationKey,
    /// Signature verification failed.
    InvalidSignature,
    /// A secret share does not match the dealer's commitment.
    InvalidShare,
    /// The signature share of the participant with this index is invalid.
    InvalidSignatureShare(u32),
    /// The selected set of signing participants was invalid.
    InvalidSigners,
    /// The threshold was zero.
    ZeroThreshold,
    /// The number of shares was zero.
    ZeroShares,
    /// The threshold exceeded the number of shares.
    ThresholdExceedShares,
    /// Two participants of a signing set share an index.
    DuplicateShares,
    /// No signing commitment matches a participant.
    NoMatchingCommitment,
    /// No binding factor matches a participant.
    NoMatchingBinding,
}

} // verus!
