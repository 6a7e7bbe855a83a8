//! The messages that FROST participants exchange: typed, versioned envelopes
//! between the dealer, the signers and the aggregator.
use vstd::prelude::*;

use crate::{SpendAuth, VerificationKeyBytes};

pub mod constants;
pub mod serialize;
pub mod validate;

verus! {

/// A scalar, in its 32-byte little-endian canonical encoding.
#[derive(Clone, Copy, Debug, PartialEq, Eq)]
pub struct Secret(pub [u8; 32]);

/// A curve point, in its 32-byte canonical encoding.
#[derive(Clone, Copy, Debug, PartialEq, Eq)]
pub struct Commitment(pub [u8; 32]);

/// The group commitment of a signature, in its 32-byte canonical encoding.
#[derive(Clone, Copy, Debug, PartialEq, Eq)]
pub struct GroupCommitment(pub [u8; 32]);

/// A signature response, in its 32-byte little-endian canonical encoding.
#[derive(Clone, Copy, Debug, PartialEq, Eq)]
pub struct SignatureResponse(pub [u8; 32]);

/// A message: a header and a payload.
#[derive(Clone, Debug)]
pub struct Message {
    pub header: Header,
    pub payload: Payload,
}

/// The fields common to every message; the message type follows from the payload.
#[derive(Clone, Copy, Debug, PartialEq, Eq, Structural)]
pub struct Header {
    pub version: MsgVersion,
    pub sender: ParticipantId,
    pub receiver: ParticipantId,
}

/// The payload of a message.
#[derive(Clone, Debug)]
pub enum Payload {
    SharePackage(SharePackage),
    SigningCommitments(SigningCommitments),
    SigningPackage(SigningPackage),
    SignatureShare(SignatureShare),
    AggregateSignature(AggregateSignature),
}

/// The protocol version of a message.
#[derive(Clone, Copy, Debug, PartialEq, Eq, Structural)]
pub struct MsgVersion(pub u8);

/// A participant of the protocol, as messages name it.
///
/// Signers are numbered from 0 in messages, so that they index arrays; the dealer
/// and the aggregator take the two highest one-byte identifiers.
#[derive(Clone, Copy, Debug, PartialEq, Eq, Structural)]
pub enum ParticipantId {
    /// A signer; its number is at most `MAX_SIGNER_PARTICIPANT_ID`.
    Signer(u8),
    /// The dealer.
    Dealer,
    /// The aggregator.
    Aggregator,
}

impl ParticipantId {
    /// A signer's number must leave room for the dealer's and the aggregator's identifiers.
    pub open spec fn wf(&self) -> bool {
        self matches ParticipantId::Signer(k) ==> k <= constants::MAX_SIGNER_PARTICIPANT_ID
    }

    /// Whether this is a signer, with a number that messages can carry.
    pub open spec fn is_signer(&self) -> bool {
        self matches ParticipantId::Signer(k) && k <= constants::MAX_SIGNER_PARTICIPANT_ID
    }
}

/// The dealer's message to a signer: its key share, the commitments to the dealer's
/// polynomial and the group public key.
#[derive(Clone, Debug)]
pub struct SharePackage {
    /// The public signing key that represents the entire group.
    pub group_public: VerificationKeyBytes<SpendAuth>,
    /// This participant's secret key share.
    pub secret_share: Secret,
    /// The commitments to the coefficients of the dealer's polynomial.
    pub share_commitment: Vec<Commitment>,
}

/// A signer's commitments of the first round of signing, sent to the aggregator.
#[derive(Clone, Copy, Debug, PartialEq, Eq)]
pub struct SigningCommitments {
    /// The hiding point.
    pub hiding: Commitment,
    /// The binding point.
    pub binding: Commitment,
}

/// The aggregator's message to the signers: every signer's commitments, and the
/// message to sign.
#[derive(Clone, Debug)]
pub struct SigningPackage {
    /// The commitments of each signer; a participant may appear once only.
    pub signing_commitments: Vec<(ParticipantId, SigningCommitments)>,
    /// The message to be signed.
    pub message: Vec<u8>,
}

/// A signer's signature share, sent to the aggregator.
#[derive(Clone, Copy, Debug, PartialEq, Eq)]
pub struct SignatureShare {
    /// This participant's response.
    pub signature: SignatureResponse,
}

/// The final signature, which the aggregator sends to the signers.
#[derive(Clone, Copy, Debug, PartialEq, Eq)]
pub struct AggregateSignature {
    /// The group commitment: the R half of the signature.
    pub group_commitment: GroupCommitment,
    /// The sum of the responses: the s half of the signature.
    pub schnorr_signature: SignatureResponse,
}

} // verus!
