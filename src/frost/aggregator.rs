//! The aggregator's part of the FROST signing protocol.
//!
//! The aggregator picks the signers, collects their commitments into one
//! commitment for all, then collects their responses into the signature.
use vstd::prelude::*;

use super::signer;
use super::{PublicKeyPackage, SigningCommitments, SigningPackage, SignatureShare};
use crate::hash::append_bytes;
use crate::{Signature, SpendAuth};

verus! {

/// An error arising from the aggregator's part of the signing protocol.
#[derive(Debug, Copy, Clone, PartialEq, Eq, Structural)]
pub enum Error {
    /// The selected set of signing participants was invalid.
    InvalidSigners,
    /// The messages received do not come from the selected participants, in order.
    WrongShares,
    /// A signature share was rejected.
    Signing(crate::Error),
}

/// An intermediate protocol state, awaiting the commitments of each selected signer.
pub struct AwaitingCommitmentShares {
    pub pubkeys: PublicKeyPackage,
    pub message: Vec<u8>,
    pub participants: Vec<u32>,
}

/// Begin the signing protocol on `message` with the given subset of participants:
/// `threshold` distinct signers of the key. Their commitments are collated by index
/// when signing, whatever the order of this list.
///
/// Sending the message and the participants to the signers is left to the caller,
/// as it is likely to depend on the application.
pub fn begin_sign(pubkeys: PublicKeyPackage, threshold: usize, message: &[u8], participants: Vec<u32>)
    -> (r: Result<AwaitingCommitmentShares, Error>)
    ensures
        ({
            let valid = participants@.len() == threshold
                && (forall|k: int| 0 <= k < participants@.len() ==> 1 <= #[trigger] participants@[k] <= pubkeys.signer_pubkeys@.len())
                && (forall|a: int, b: int| 0 <= a < b < participants@.len() ==> participants@[a] != participants@[b]);
            &&& valid ==> (r matches Ok(s) && s.pubkeys == pubkeys && s.message@ == message@
                && s.participants@ == participants@)
            &&& !valid ==> r == Err::<AwaitingCommitmentShares, Error>(Error::InvalidSigners)
        }),
{
    if !signer::check_participants(&participants, pubkeys.signer_pubkeys.len(), threshold) {
        return Err(Error::InvalidSigners);
    }
    let mut m: Vec<u8> = Vec::new();
    append_bytes(&mut m, message);
    Ok(AwaitingCommitmentShares { pubkeys, message: m, participants })
}

/// The aggregation of each signer's commitments, sent to every signer.
#[derive(Clone, Debug)]
pub struct Commitment {
    pub package: SigningPackage,
}

impl AwaitingCommitmentShares {
    /// Continue the signing protocol with each signer's commitments, in the order of
    /// the participants.
    ///
    /// This returns the next state, and the [`Commitment`] to send to each signer.
    pub fn recv(self, shares: Vec<signer::CommitmentShare>) -> (r: Result<(AwaitingResponseShares, Commitment), Error>)
        ensures
            ({
                let valid = shares@.len() == self.participants@.len()
                    && forall|k: int| 0 <= k < shares@.len() ==> (#[trigger] shares@[k]).commitments.index == self.participants@[k];
                &&& valid ==> (r matches Ok(res)
                    && res.1.package.message@ == self.message@
                    && res.1.package.signing_commitments@.len() == shares@.len()
                    && (forall|k: int| 0 <= k < shares@.len() ==> #[trigger] res.1.package.signing_commitments@[k] == shares@[k].commitments)
                    && res.0.pubkeys == self.pubkeys
                    && res.0.package.message@ == self.message@
                    && res.0.package.signing_commitments@ == res.1.package.signing_commitments@)
                &&& !valid ==> r == Err::<(AwaitingResponseShares, Commitment), Error>(Error::WrongShares)
            }),
    {
        if shares.len() != self.participants.len() {
            return Err(Error::WrongShares);
        }
        let mut commitments: Vec<SigningCommitments> = Vec::new();
        let mut k: usize = 0;
        while k < shares.len()
            invariant
                shares@.len() == self.participants@.len(),
                k <= shares@.len(),
                commitments@.len() == k,
                forall|q: int| 0 <= q < k ==> (#[trigger] shares@[q]).commitments.index == self.participants@[q],
                forall|q: int| 0 <= q < k ==> #[trigger] commitments@[q] == shares@[q].commitments,
            decreases shares@.len() - k,
        {
            if shares[k].commitments.index != self.participants[k] {
                return Err(Error::WrongShares);
            }
            commitments.push(shares[k].commitments);
            k = k + 1;
        }
        let mut m1: Vec<u8> = Vec::new();
        append_bytes(&mut m1, self.message.as_slice());
        let mut m2: Vec<u8> = Vec::new();
        append_bytes(&mut m2, self.message.as_slice());
        let mut c2: Vec<SigningCommitments> = Vec::new();
        let mut q: usize = 0;
        while q < commitments.len()
            invariant
                q <= commitments@.len(),
                c2@ == commitments@.subrange(0, q as int),
            decreases commitments@.len() - q,
        {
            c2.push(commitments[q]);
            q = q + 1;
            proof {
                assert(c2@ =~= commitments@.subrange(0, q as int));
            }
        }
        proof {
            assert(c2@ =~= commitments@);
        }
        let state = AwaitingResponseShares {
            pubkeys: self.pubkeys,
            package: SigningPackage { message: m1, signing_commitments: c2 },
        };
        Ok((state, Commitment { package: SigningPackage { message: m2, signing_commitments: commitments } }))
    }
}

/// The shares of `responses`, if they come from the participants of `cs`, in order.
fn collect_shares(responses: &Vec<signer::ResponseShare>, cs: &Vec<SigningCommitments>) -> (r: Option<Vec<SignatureShare>>)
    ensures
        r is Some <==> (responses@.len() == cs@.len()
            && forall|k: int| 0 <= k < responses@.len() ==> (#[trigger] responses@[k]).share.index == cs@[k].index),
        r matches Some(shares) ==> shares@.len() == responses@.len()
            && forall|k: int| 0 <= k < responses@.len() ==> #[trigger] shares@[k] == responses@[k].share,
{
    if responses.len() != cs.len() {
        return None;
    }
    let mut shares: Vec<SignatureShare> = Vec::new();
    let mut k: usize = 0;
    while k < responses.len()
        invariant
            responses@.len() == cs@.len(),
            k <= responses@.len(),
            shares@.len() == k,
            forall|q: int| 0 <= q < k ==> (#[trigger] responses@[q]).share.index == cs@[q].index,
            forall|q: int| 0 <= q < k ==> #[trigger] shares@[q] == responses@[q].share,
        decreases responses@.len() - k,
    {
        if responses[k].share.index != cs[k].index {
            proof {
                assert(responses@[k as int].share.index != cs@[k as int].index);
            }
            return None;
        }
        shares.push(responses[k].share);
        k = k + 1;
    }
    Some(shares)
}

/// An intermediate protocol state, awaiting the response of each selected signer.
pub struct AwaitingResponseShares {
    pub pubkeys: PublicKeyPackage,
    pub package: SigningPackage,
}

impl AwaitingResponseShares {
    /// Finish the signing protocol with each signer's response, in the order of the
    /// participants, producing the signature.
    pub fn recv(self, responses: Vec<signer::ResponseShare>) -> (r: Result<Signature<SpendAuth>, Error>)
        requires
            self.package.wf(),
            self.pubkeys.wf(),
            forall|k: int| 0 <= k < responses@.len() ==> (#[trigger] responses@[k]).share.signature.wf(),
        ensures
            ({
                let cs = self.package.signing_commitments@;
                let valid = responses@.len() == cs.len()
                    && forall|k: int| 0 <= k < responses@.len() ==> (#[trigger] responses@[k]).share.index == cs[k].index;
                let collated = super::canonical_order(cs);
                let msg = self.package.message@;
                let accepted = forall|k: int| 0 <= k < responses@.len()
                    ==> super::share_accepted(msg, collated, self.pubkeys, (#[trigger] responses@[k]).share);
                let distinct = super::distinct_indices(cs);
                &&& !valid ==> r == Err::<Signature<SpendAuth>, Error>(Error::WrongShares)
                &&& valid && !distinct ==> r == Err::<Signature<SpendAuth>, Error>(Error::Signing(crate::Error::DuplicateShares))
                &&& valid ==> (r.is_ok() <==> distinct && accepted)
                &&& r matches Ok(sig) ==> sig.r_bytes@ == super::group_commitment(msg, collated, collated.len())
                    && crate::scalar::le_nat(sig.s_bytes@) == super::response_sum(
                        responses@.map_values(|x: signer::ResponseShare| x.share)) % (crate::scalar::modulus() as int)
            }),
    {
        let shares = match collect_shares(&responses, &self.package.signing_commitments) {
            Some(shares) => shares,
            None => return Err(Error::WrongShares),
        };
        proof {
            assert(shares@.len() == responses@.len());
            assert forall|k: int| 0 <= k < responses@.len() implies
                (super::share_accepted(self.package.message@, super::canonical_order(self.package.signing_commitments@),
                    self.pubkeys, (#[trigger] responses@[k]).share)
                    <==> super::share_accepted(self.package.message@, super::canonical_order(self.package.signing_commitments@),
                    self.pubkeys, shares@[k])) by {
                assert(shares@[k] == responses@[k].share);
            }
            assert(shares@ =~= responses@.map_values(|x: signer::ResponseShare| x.share));
        }
        match super::aggregate(&self.package, &shares, &self.pubkeys) {
            Ok(sig) => Ok(sig),
            Err(e) => Err(Error::Signing(e)),
        }
    }
}

} // verus!
