//! The validation rules of messages.
use vstd::prelude::*;

use super::constants::{BASIC_FROST_SERIALIZATION, MAX_PROTOCOL_MESSAGE_LEN, MAX_SIGNERS, MIN_SIGNERS};
use super::{Header, Message, ParticipantId, Payload, SigningCommitments};

verus! {

/// The error a message can produce if it fails validation.
#[derive(Clone, Copy, Debug, PartialEq, Eq, Structural)]
pub enum MsgErr {
    /// The version is not one this library reads.
    WrongVersion,
    /// The sender and the receiver are the same participant.
    SameSenderAndReceiver,
    /// The sender of this message must be the dealer.
    SenderMustBeDealer,
    /// The receiver of this message must be a signer.
    ReceiverMustBeSigner,
    /// The sender of this message must be a signer.
    SenderMustBeSigner,
    /// The receiver of this message must be the aggregator.
    ReceiverMustBeAggregator,
    /// The sender of this message must be the aggregator.
    SenderMustBeAggregator,
    /// The message to sign is too big.
    MsgTooBig,
    /// There are fewer commitments than the given minimum.
    NotEnoughCommitments(usize),
    /// There are more commitments than `MAX_SIGNERS`.
    TooManyCommitments,
    /// A participant has more than one set of commitments.
    DuplicateSigner,
    /// A set of commitments belongs to a participant that is not a signer.
    NotASigner,
}

/// A message that passes its rules is returned as it is; otherwise the first rule it
/// breaks is reported.
pub trait Validate: Sized {
    /// The first rule the value breaks, if any.
    spec fn broken_rule(&self) -> Option<MsgErr>;

    fn validate(&self) -> (r: Result<&Self, MsgErr>)
        ensures
            match self.broken_rule() {
                None => r matches Ok(s) && *s == *self,
                Some(e) => r == Err::<&Self, MsgErr>(e),
            },
    ;
}

/// The first rule of the header that `h` breaks.
pub open spec fn header_error(h: Header) -> Option<MsgErr> {
    if h.version.0 != BASIC_FROST_SERIALIZATION {
        Some(MsgErr::WrongVersion)
    } else if h.sender == h.receiver {
        Some(MsgErr::SameSenderAndReceiver)
    } else {
        None
    }
}

/// The first rule on the roles of the sender and the receiver of a payload that `h` breaks.
pub open spec fn role_error(h: Header, p: Payload) -> Option<MsgErr> {
    match p {
        Payload::SharePackage(_) => if h.sender != ParticipantId::Dealer {
            Some(MsgErr::SenderMustBeDealer)
        } else if !h.receiver.is_signer() {
            Some(MsgErr::ReceiverMustBeSigner)
        } else {
            None
        },
        Payload::SigningCommitments(_) | Payload::SignatureShare(_) => if !h.sender.is_signer() {
            Some(MsgErr::SenderMustBeSigner)
        } else if h.receiver != ParticipantId::Aggregator {
            Some(MsgErr::ReceiverMustBeAggregator)
        } else {
            None
        },
        Payload::SigningPackage(_) | Payload::AggregateSignature(_) => if h.sender != ParticipantId::Aggregator {
            Some(MsgErr::SenderMustBeAggregator)
        } else if !h.receiver.is_signer() {
            Some(MsgErr::ReceiverMustBeSigner)
        } else {
            None
        },
    }
}

/// Whether every participant among `cs` is a signer.
pub open spec fn all_signers(cs: Seq<(ParticipantId, SigningCommitments)>) -> bool {
    forall|k: int| 0 <= k < cs.len() ==> (#[trigger] cs[k]).0.is_signer()
}

/// Whether no participant appears twice among `cs`.
pub open spec fn participants_unique(cs: Seq<(ParticipantId, SigningCommitments)>) -> bool {
    forall|a: int, b: int| 0 <= a < b < cs.len() ==> (#[trigger] cs[a]).0 != (#[trigger] cs[b]).0
}

/// The first rule on a number of commitments that `n` breaks.
pub open spec fn commitment_count_error(n: nat) -> Option<MsgErr> {
    if n < MIN_SIGNERS {
        Some(MsgErr::NotEnoughCommitments(MIN_SIGNERS))
    } else if n > MAX_SIGNERS {
        Some(MsgErr::TooManyCommitments)
    } else {
        None
    }
}

/// The first rule of the payload that `p` breaks.
pub open spec fn payload_error(p: Payload) -> Option<MsgErr> {
    match p {
        Payload::SharePackage(sp) => commitment_count_error(sp.share_commitment@.len()),
        Payload::SigningPackage(sp) => if commitment_count_error(sp.signing_commitments@.len()) is Some {
            commitment_count_error(sp.signing_commitments@.len())
        } else if !all_signers(sp.signing_commitments@) {
            Some(MsgErr::NotASigner)
        } else if !participants_unique(sp.signing_commitments@) {
            Some(MsgErr::DuplicateSigner)
        } else if sp.message@.len() > MAX_PROTOCOL_MESSAGE_LEN {
            Some(MsgErr::MsgTooBig)
        } else {
            None
        },
        _ => None,
    }
}

/// The first rule that the message `m` breaks: the header's, then the roles', then the payload's.
pub open spec fn message_error(m: Message) -> Option<MsgErr> {
    if header_error(m.header) is Some {
        header_error(m.header)
    } else if role_error(m.header, m.payload) is Some {
        role_error(m.header, m.payload)
    } else {
        payload_error(m.payload)
    }
}

fn check_header(h: &Header) -> (r: Option<MsgErr>)
    ensures
        r == header_error(*h),
{
    if h.version.0 != BASIC_FROST_SERIALIZATION {
        return Some(MsgErr::WrongVersion);
    }
    if h.sender == h.receiver {
        return Some(MsgErr::SameSenderAndReceiver);
    }
    None
}

fn is_signer(p: &ParticipantId) -> (r: bool)
    ensures
        r == p.is_signer(),
{
    match p {
        ParticipantId::Signer(k) => *k <= super::constants::MAX_SIGNER_PARTICIPANT_ID,
        _ => false,
    }
}

fn check_roles(h: &Header, p: &Payload) -> (r: Option<MsgErr>)
    ensures
        r == role_error(*h, *p),
{
    match p {
        Payload::SharePackage(_) => {
            if h.sender != ParticipantId::Dealer {
                return Some(MsgErr::SenderMustBeDealer);
            }
            if !is_signer(&h.receiver) {
                return Some(MsgErr::ReceiverMustBeSigner);
            }
        },
        Payload::SigningCommitments(_) | Payload::SignatureShare(_) => {
            if !is_signer(&h.sender) {
                return Some(MsgErr::SenderMustBeSigner);
            }
            if h.receiver != ParticipantId::Aggregator {
                return Some(MsgErr::ReceiverMustBeAggregator);
            }
        },
        Payload::SigningPackage(_) | Payload::AggregateSignature(_) => {
            if h.sender != ParticipantId::Aggregator {
                return Some(MsgErr::SenderMustBeAggregator);
            }
            if !is_signer(&h.receiver) {
                return Some(MsgErr::ReceiverMustBeSigner);
            }
        },
    }
    None
}

fn check_commitment_count(n: usize) -> (r: Option<MsgErr>)
    ensures
        r == commitment_count_error(n as nat),
{
    if n < MIN_SIGNERS {
        return Some(MsgErr::NotEnoughCommitments(MIN_SIGNERS));
    }
    if n > MAX_SIGNERS {
        return Some(MsgErr::TooManyCommitments);
    }
    None
}

fn check_unique(cs: &Vec<(ParticipantId, SigningCommitments)>) -> (r: bool)
    ensures
        r == participants_unique(cs@),
{
    let mut b: usize = 0;
    while b < cs.len()
        invariant
            b <= cs@.len(),
            forall|x: int, y: int| 0 <= x < y < b ==> (#[trigger] cs@[x]).0 != (#[trigger] cs@[y]).0,
        decreases cs@.len() - b,
    {
        let mut a: usize = 0;
        while a < b
            invariant
                a <= b < cs@.len(),
                forall|x: int, y: int| 0 <= x < y < b ==> (#[trigger] cs@[x]).0 != (#[trigger] cs@[y]).0,
                forall|x: int| 0 <= x < a ==> (#[trigger] cs@[x]).0 != cs@[b as int].0,
            decreases b - a,
        {
            if cs[a].0 == cs[b].0 {
                return false;
            }
            a = a + 1;
        }
        b = b + 1;
    }
    true
}

fn check_all_signers(cs: &Vec<(ParticipantId, SigningCommitments)>) -> (r: bool)
    ensures
        r == all_signers(cs@),
{
    let mut k: usize = 0;
    while k < cs.len()
        invariant
            k <= cs@.len(),
            forall|q: int| 0 <= q < k ==> (#[trigger] cs@[q]).0.is_signer(),
        decreases cs@.len() - k,
    {
        if !is_signer(&cs[k].0) {
            return false;
        }
        k = k + 1;
    }
    true
}

fn check_payload(p: &Payload) -> (r: Option<MsgErr>)
    ensures
        r == payload_error(*p),
{
    match p {
        Payload::SharePackage(sp) => check_commitment_count(sp.share_commitment.len()),
        Payload::SigningPackage(sp) => {
            let count = check_commitment_count(sp.signing_commitments.len());
            if count.is_some() {
                return count;
            }
            if !check_all_signers(&sp.signing_commitments) {
                return Some(MsgErr::NotASigner);
            }
            if !check_unique(&sp.signing_commitments) {
                return Some(MsgErr::DuplicateSigner);
            }
            if sp.message.len() > MAX_PROTOCOL_MESSAGE_LEN {
                return Some(MsgErr::MsgTooBig);
            }
            None
        },
        _ => None,
    }
}

impl Validate for Header {
    open spec fn broken_rule(&self) -> Option<MsgErr> {
        header_error(*self)
    }

    fn validate(&self) -> (r: Result<&Self, MsgErr>) {
        match check_header(self) {
            Some(e) => Err(e),
            None => Ok(self),
        }
    }
}

impl Validate for Payload {
    open spec fn broken_rule(&self) -> Option<MsgErr> {
        payload_error(*self)
    }

    fn validate(&self) -> (r: Result<&Self, MsgErr>) {
        match check_payload(self) {
            Some(e) => Err(e),
            None => Ok(self),
        }
    }
}

impl Validate for Message {
    open spec fn broken_rule(&self) -> Option<MsgErr> {
        message_error(*self)
    }

    fn validate(&self) -> (r: Result<&Self, MsgErr>) {
        if let Some(e) = check_header(&self.header) {
            return Err(e);
        }
        if let Some(e) = check_roles(&self.header, &self.payload) {
            return Err(e);
        }
        if let Some(e) = check_payload(&self.payload) {
            return Err(e);
        }
        Ok(self)
    }
}

/// Validation depends on the message alone: validating a message twice gives the same
/// outcome, and a message that passes passes unchanged.
pub proof fn lemma_validation_deterministic(m: Message, first: Option<MsgErr>, second: Option<MsgErr>)
    requires
        first == message_error(m),
        second == message_error(m),
    ensures
        first == second,
{
}

/// A message that passes validation names only participants that a byte can stand
/// for, so it has an encoding that reads back as itself.
pub proof fn lemma_valid_message_encodable(m: Message)
    requires
        message_error(m) is None,
    ensures
        m.wf(),
{
}

/// Builds a header from the current version, checking that it is valid.
pub fn create_valid_header(sender: ParticipantId, receiver: ParticipantId) -> (r: Result<Header, MsgErr>)
    ensures
        sender != receiver <==> r.is_ok(),
        r matches Ok(h) ==> h.version.0 == BASIC_FROST_SERIALIZATION && h.sender == sender && h.receiver == receiver,
        r matches Err(e) ==> e == MsgErr::SameSenderAndReceiver,
{
    let header = Header { version: super::MsgVersion(BASIC_FROST_SERIALIZATION), sender, receiver };
    match header.validate() {
        Ok(h) => Ok(*h),
        Err(e) => Err(e),
    }
}

} // verus!
