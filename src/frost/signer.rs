//! The signers' part of the FROST signing protocol.
//!
//! A signer begins with the message and the set of participants, publishes its
//! commitments, then answers the aggregator's commitment with its response.
use vstd::prelude::*;

use super::aggregator;
use super::{SecretShare, SignatureShare, SigningCommitments, SigningNonces};
use crate::hash::append_bytes;

verus! {

/// An error arising from the signers' part of the signing protocol.
#[derive(Debug, Copy, Clone, PartialEq, Eq, Structural)]
pub enum Error {
    /// The selected set of signing participants was invalid.
    InvalidSigners,
    /// A signing session is already running on this share.
    SessionInProgress,
    /// The aggregator's commitment is not for this session.
    WrongCommitment,
    /// Computing the signature share failed.
    Signing(crate::Error),
}

/// Whether `participants` is a valid signing set for a share with configuration
/// `config`: `threshold` distinct shares among `1..=num_shares`, this one included.
pub open spec fn valid_participants(participants: Seq<u32>, config: super::Config) -> bool {
    &&& participants.len() == config.threshold
    &&& forall|k: int| 0 <= k < participants.len() ==> 1 <= #[trigger] participants[k] <= config.num_shares
    &&& forall|a: int, b: int| 0 <= a < b < participants.len() ==> participants[a] != participants[b]
    &&& exists|k: int| 0 <= k < participants.len() && participants[k] == config.share_id
}

/// Checks a signing set against `num_shares` and `threshold`: the right size, known
/// shares, and no share twice.
pub fn check_participants(participants: &Vec<u32>, num_shares: usize, threshold: usize) -> (r: bool)
    ensures
        r == (participants@.len() == threshold
            && (forall|k: int| 0 <= k < participants@.len() ==> 1 <= #[trigger] participants@[k] <= num_shares)
            && (forall|a: int, b: int| 0 <= a < b < participants@.len() ==> participants@[a] != participants@[b])),
{
    if participants.len() != threshold {
        return false;
    }
    let mut b: usize = 0;
    while b < participants.len()
        invariant
            b <= participants@.len(),
            forall|k: int| 0 <= k < b ==> 1 <= #[trigger] participants@[k] <= num_shares,
            forall|x: int, y: int| 0 <= x < y < b ==> participants@[x] != participants@[y],
        decreases participants@.len() - b,
    {
        if participants[b] < 1 || participants[b] as usize > num_shares {
            return false;
        }
        let mut a: usize = 0;
        while a < b
            invariant
                a <= b < participants@.len(),
                forall|x: int| 0 <= x < a ==> participants@[x] != participants@[b as int],
            decreases b - a,
        {
            if participants[a] == participants[b] {
                return false;
            }
            a = a + 1;
        }
        b = b + 1;
    }
    true
}

fn contains(participants: &Vec<u32>, i: u32) -> (r: bool)
    ensures
        r == exists|k: int| 0 <= k < participants@.len() && participants@[k] == i,
{
    let mut k: usize = 0;
    while k < participants.len()
        invariant
            k <= participants@.len(),
            forall|q: int| 0 <= q < k ==> participants@[q] != i,
        decreases participants@.len() - k,
    {
        if participants[k] == i {
            return true;
        }
        k = k + 1;
    }
    false
}

fn copy_u32s(v: &Vec<u32>) -> (r: Vec<u32>)
    ensures
        r@ == v@,
{
    let mut r: Vec<u32> = Vec::new();
    let mut i: usize = 0;
    while i < v.len()
        invariant
            i <= v@.len(),
            r@ == v@.subrange(0, i as int),
        decreases v@.len() - i,
    {
        r.push(v[i]);
        i = i + 1;
        proof {
            assert(r@ =~= v@.subrange(0, i as int));
        }
    }
    proof {
        assert(r@ =~= v@);
    }
    r
}

impl SecretShare {
    /// Begin the signing protocol with this share, on `msg`, with the signers `participants`.
    ///
    /// The session marks the share as busy until it ends, so that one run of the
    /// signing protocol is performed at a time: parallel runs would open the way to the
    /// attack of Drijvers et al. on two-round Schnorr multi-signatures.
    pub fn begin_sign(&mut self, msg: &[u8], participants: &Vec<u32>, rng: &mut rand_core::OsRng)
        -> (r: Result<(AwaitingCommitment, CommitmentShare), Error>)
        requires
            old(self).wf(),
        ensures
            final(self).config == old(self).config,
            final(self).key == old(self).key,
            old(self).in_session ==> r == Err::<(AwaitingCommitment, CommitmentShare), Error>(Error::SessionInProgress)
                && final(self).in_session,
            !old(self).in_session && !valid_participants(participants@, old(self).config)
                ==> r == Err::<(AwaitingCommitment, CommitmentShare), Error>(Error::InvalidSigners)
                && !final(self).in_session,
            !old(self).in_session && valid_participants(participants@, old(self).config) ==> (r matches Ok(res)
                && final(self).in_session
                && res.0.wf()
                && res.0.message@ == msg@
                && res.0.participants@ == participants@
                && res.0.key == old(self).key
                && res.1.commitments == SigningCommitments {
                    index: old(self).key.index,
                    hiding: res.1.commitments.hiding,
                    binding: res.1.commitments.binding,
                }
                && res.1.commitments.hiding.bytes@ == crate::point::point_scaled(
                    crate::point::SPENDAUTHSIG_BASEPOINT_BYTES@, res.0.nonces.hiding.value())
                && res.1.commitments.binding.bytes@ == crate::point::point_scaled(
                    crate::point::SPENDAUTHSIG_BASEPOINT_BYTES@, res.0.nonces.binding.value())),
    {
        if self.in_session {
            return Err(Error::SessionInProgress);
        }
        if !check_participants(participants, self.config.num_shares, self.config.threshold)
            || !contains(participants, self.key.index) {
            return Err(Error::InvalidSigners);
        }
        let nonces = SigningNonces::new(rng);
        let commitments = SigningCommitments::from_nonces(self.key.index, &nonces);
        let mut message: Vec<u8> = Vec::new();
        append_bytes(&mut message, msg);
        self.in_session = true;
        let state = AwaitingCommitment { key: self.key, nonces, message, participants: copy_u32s(participants) };
        Ok((state, CommitmentShare { commitments }))
    }
}

/// A signer's commitments, sent to the aggregator in the first round of signing.
#[derive(Clone, Copy, Debug)]
pub struct CommitmentShare {
    pub commitments: SigningCommitments,
}

/// A signing session waiting for the aggregator's commitment.
pub struct AwaitingCommitment {
    pub key: super::KeyPackage,
    pub nonces: SigningNonces,
    pub message: Vec<u8>,
    pub participants: Vec<u32>,
}

impl AwaitingCommitment {
    pub open spec fn wf(&self) -> bool {
        self.key.wf() && self.nonces.wf()
    }

    /// Whether the aggregator's commitment is for this session: it is on the
    /// session's message and holds one commitment for each participant, in order.
    pub open spec fn is_for_session(&self, commitment: aggregator::Commitment) -> bool {
        let cs = commitment.package.signing_commitments@;
        &&& commitment.package.message@ == self.message@
        &&& cs.len() == self.participants@.len()
        &&& forall|k: int| 0 <= k < cs.len() ==> (#[trigger] cs[k]).index == self.participants@[k]
    }

    /// Continue the signing protocol with the aggregator's commitment, which combines
    /// the commitments of every participant, producing this signer's response.
    ///
    /// The session ends here, whatever the outcome: `share` is free again.
    pub fn recv(self, share: &mut SecretShare, commitment: aggregator::Commitment) -> (r: Result<ResponseShare, Error>)
        requires
            self.wf(),
            commitment.package.wf(),
        ensures
            final(share).config == old(share).config,
            final(share).key == old(share).key,
            !final(share).in_session,
            !self.is_for_session(commitment) ==> r == Err::<ResponseShare, Error>(Error::WrongCommitment),
            self.is_for_session(commitment) ==> match r {
                Ok(resp) => super::signed(commitment.package, self.nonces, self.key.index, self.key.secret_share.0,
                    self.key.group_public.bytes@, Ok(resp.share)),
                Err(Error::Signing(e)) => super::signed(commitment.package, self.nonces, self.key.index,
                    self.key.secret_share.0, self.key.group_public.bytes@, Err(e)),
                Err(_) => false,
            },
    {
        share.in_session = false;
        if !self.check_matches(&commitment) {
            return Err(Error::WrongCommitment);
        }
        match super::sign_share(&commitment.package, self.nonces, self.key.index, &self.key.secret_share.0,
            &self.key.group_public) {
            Ok(z) => Ok(ResponseShare { share: z }),
            Err(e) => Err(Error::Signing(e)),
        }
    }

    fn check_matches(&self, commitment: &aggregator::Commitment) -> (r: bool)
        ensures
            r == self.is_for_session(*commitment),
    {
        let cs = &commitment.package.signing_commitments;
        if !crate::hash::bytes_equal_vec(&commitment.package.message, &self.message) {
            return false;
        }
        if cs.len() != self.participants.len() {
            return false;
        }
        let mut k: usize = 0;
        while k < cs.len()
            invariant
                cs@.len() == self.participants@.len(),
                commitment.package.message@ == self.message@,
                cs@ == commitment.package.signing_commitments@,
                k <= cs@.len(),
                forall|q: int| 0 <= q < k ==> (#[trigger] cs@[q]).index == self.participants@[q],
            decreases cs@.len() - k,
        {
            if cs[k].index != self.participants[k] {
                proof {
                    let c = *commitment;
                    assert(c.package.signing_commitments@[k as int].index != self.participants@[k as int]);
                    assert(!self.is_for_session(c));
                }
                return false;
            }
            k = k + 1;
        }
        true
    }
}

/// A signer's response, sent to the aggregator in the second round of signing.
#[derive(Clone, Copy, Debug)]
pub struct ResponseShare {
    pub share: SignatureShare,
}

} // verus!
