//! Batch verification of RedJubjub signatures.
//!
//! Batch verification asks whether *all* signatures in some set are valid,
//! rather than asking whether *each* of them is valid: it shares work between
//! the verifications at the cost of not telling which signature failed.
use vstd::prelude::*;

use crate::point::point_decodes;
use crate::scalar::{le_nat, modulus};
use crate::signature::signature_halves;
use crate::verification_key::{verifies, vk_acceptable};
use crate::{Binding, Error, SigType, Signature, SpendAuth, VerificationKey, VerificationKeyBytes};

verus! {

/// A queued signature: key bytes, signature bytes and the signed message.
#[derive(Clone, Debug)]
pub struct Entry {
    pub vk_bytes: [u8; 32],
    pub sig: [u8; 64],
    pub msg: Vec<u8>,
}

impl Entry {
    /// Whether this entry is a valid signature of the family `T` under a valid key (one
    /// that does not have small order).
    pub open spec fn valid<T: SigType>(&self) -> bool {
        vk_acceptable(self.vk_bytes@) && verifies::<T>(self.vk_bytes@, self.msg@, self.sig@)
    }

    /// Whether the key, R and s of this entry all decode.
    pub open spec fn decodes(&self) -> bool {
        &&& point_decodes(self.vk_bytes@)
        &&& point_decodes(signature_halves(self.sig@).0)
        &&& le_nat(signature_halves(self.sig@).1) < modulus()
    }
}

/// Verifies a batch. Relies on `reddsa::batch::Verifier::verify`: it fails when a key, an R
/// or an s does not decode, and it succeeds when every signature is valid on its own.
#[verifier::external_body]
fn reddsa_batch_verify(spend_auth: &Vec<Entry>, binding: &Vec<Entry>, rng: &mut rand_core::OsRng) -> (r: bool)
    ensures
        r ==> forall|i: int| 0 <= i < spend_auth@.len() ==> #[trigger] spend_auth@[i].decodes(),
        r ==> forall|i: int| 0 <= i < binding@.len() ==> #[trigger] binding@[i].decodes(),
        ((forall|i: int| 0 <= i < spend_auth@.len() ==> #[trigger] spend_auth@[i].valid::<SpendAuth>())
            && (forall|i: int| 0 <= i < binding@.len() ==> #[trigger] binding@[i].valid::<Binding>())) ==> r,
{
    let mut v = reddsa::batch::Verifier::<reddsa::sapling::SpendAuth, reddsa::sapling::Binding>::new();
    for e in spend_auth.iter() {
        v.queue(reddsa::batch::Item::from_spendauth(e.vk_bytes.into(), e.sig.into(), &e.msg));
    }
    for e in binding.iter() {
        v.queue(reddsa::batch::Item::from_binding(e.vk_bytes.into(), e.sig.into(), &e.msg));
    }
    v.verify(rng).is_ok()
}

/// A batch verification item: a signature of either family with its key and message.
#[derive(Clone, Debug)]
pub enum Item {
    SpendAuth(Entry),
    Binding(Entry),
}

impl Item {
    /// The key, signature and message of this item.
    pub open spec fn entry(&self) -> Entry {
        match self {
            Item::SpendAuth(e) => *e,
            Item::Binding(e) => *e,
        }
    }

    /// Whether this item is a valid signature.
    pub open spec fn valid(&self) -> bool {
        match self {
            Item::SpendAuth(e) => e.valid::<SpendAuth>(),
            Item::Binding(e) => e.valid::<Binding>(),
        }
    }

    /// An item for a `SpendAuth` signature.
    pub fn from_spend_auth(vk_bytes: VerificationKeyBytes<SpendAuth>, sig: Signature<SpendAuth>, msg: &[u8]) -> (r: Item)
        ensures
            r == Item::SpendAuth(Entry { vk_bytes: vk_bytes.bytes, sig: r->SpendAuth_0.sig, msg: r->SpendAuth_0.msg }),
            r->SpendAuth_0.sig@ == sig.view_bytes(),
            r->SpendAuth_0.msg@ == msg@,
    {
        let mut m: Vec<u8> = Vec::new();
        crate::hash::append_bytes(&mut m, msg);
        Item::SpendAuth(Entry { vk_bytes: vk_bytes.bytes, sig: sig.to_bytes(), msg: m })
    }

    /// An item for a `Binding` signature.
    pub fn from_binding(vk_bytes: VerificationKeyBytes<Binding>, sig: Signature<Binding>, msg: &[u8]) -> (r: Item)
        ensures
            r == Item::Binding(Entry { vk_bytes: vk_bytes.bytes, sig: r->Binding_0.sig, msg: r->Binding_0.msg }),
            r->Binding_0.sig@ == sig.view_bytes(),
            r->Binding_0.msg@ == msg@,
    {
        let mut m: Vec<u8> = Vec::new();
        crate::hash::append_bytes(&mut m, msg);
        Item::Binding(Entry { vk_bytes: vk_bytes.bytes, sig: sig.to_bytes(), msg: m })
    }

    /// Perform non-batched verification of this `Item`, as `VerificationKey::try_from_bytes`
    /// followed by `VerificationKey::verify` would: useful, on a clone, to find which item
    /// made a batch fail.
    pub fn verify_single(self) -> (r: Result<(), Error>)
        ensures
            r.is_ok() <==> self.valid(),
            r matches Err(e) ==> e == if vk_acceptable(self.entry().vk_bytes@) {
                Error::InvalidSignature
            } else {
                Error::MalformedVerificationKey
            },
    {
        match self {
            Item::SpendAuth(e) => verify_entry::<SpendAuth>(&e),
            Item::Binding(e) => verify_entry::<Binding>(&e),
        }
    }
}

fn verify_entry<T: SigType>(e: &Entry) -> (r: Result<(), Error>)
    ensures
        r.is_ok() <==> e.valid::<T>(),
        r matches Err(x) ==> x == if vk_acceptable(e.vk_bytes@) {
            Error::InvalidSignature
        } else {
            Error::MalformedVerificationKey
        },
{
    let vk = match VerificationKey::<T>::try_from_bytes(VerificationKeyBytes::from_bytes(e.vk_bytes)) {
        Ok(vk) => vk,
        Err(x) => return Err(x),
    };
    let sig = Signature::<T>::from_bytes(e.sig);
    proof {
        crate::signature::lemma_signature_round_trip(e.sig@, e.sig@.subrange(0, 32), e.sig@.subrange(32, 64));
    }
    vk.verify(e.msg.as_slice(), &sig)
}

/// A batch verification context.
pub struct Verifier {
    pub spend_auth: Vec<Entry>,
    pub binding: Vec<Entry>,
}

impl Verifier {
    /// Construct a new batch verifier.
    pub fn new() -> (r: Verifier)
        ensures
            r.spend_auth@.len() == 0,
            r.binding@.len() == 0,
    {
        Verifier { spend_auth: Vec::new(), binding: Vec::new() }
    }

    /// Queue an item for verification.
    pub fn queue(&mut self, item: Item)
        ensures
            item matches Item::SpendAuth(e) ==> final(self).spend_auth@ == old(self).spend_auth@.push(e)
                && final(self).binding@ == old(self).binding@,
            item matches Item::Binding(e) ==> final(self).binding@ == old(self).binding@.push(e)
                && final(self).spend_auth@ == old(self).spend_auth@,
    {
        match item {
            Item::SpendAuth(e) => self.spend_auth.push(e),
            Item::Binding(e) => self.binding.push(e),
        }
    }

    /// Whether every queued signature is valid.
    pub open spec fn all_valid(&self) -> bool {
        &&& forall|i: int| 0 <= i < self.spend_auth@.len() ==> #[trigger] self.spend_auth@[i].valid::<SpendAuth>()
        &&& forall|i: int| 0 <= i < self.binding@.len() ==> #[trigger] self.binding@[i].valid::<Binding>()
    }

    /// Whether every queued key, R and s decodes.
    pub open spec fn all_decode(&self) -> bool {
        &&& forall|i: int| 0 <= i < self.spend_auth@.len() ==> #[trigger] self.spend_auth@[i].decodes()
        &&& forall|i: int| 0 <= i < self.binding@.len() ==> #[trigger] self.binding@[i].decodes()
    }

    /// Whether every queued key is a valid key: it decodes and does not have small order.
    pub open spec fn all_keys_acceptable(&self) -> bool {
        &&& forall|i: int| 0 <= i < self.spend_auth@.len() ==> vk_acceptable(#[trigger] self.spend_auth@[i].vk_bytes@)
        &&& forall|i: int| 0 <= i < self.binding@.len() ==> vk_acceptable(#[trigger] self.binding@[i].vk_bytes@)
    }

    /// Perform batch verification, returning `Ok(())` if all signatures were
    /// valid and `Err` otherwise.
    ///
    /// Keys are checked first: a key that does not decode, or has small order, fails the
    /// batch with `MalformedVerificationKey`. Then each signature's verification equation
    /// is weighted by a random 128-bit scalar and all are checked at once by one
    /// multiscalar multiplication; a batch with an invalid signature fails with
    /// overwhelming probability.
    pub fn verify(self, rng: &mut rand_core::OsRng) -> (r: Result<(), Error>)
        ensures
            self.all_valid() ==> r.is_ok(),
            !self.all_keys_acceptable() ==> r == Err::<(), Error>(Error::MalformedVerificationKey),
            !self.all_decode() ==> r.is_err(),
            r matches Err(e) ==> e == Error::InvalidSignature || e == Error::MalformedVerificationKey,
    {
        if !keys_acceptable(&self.spend_auth) || !keys_acceptable(&self.binding) {
            proof {
                if self.all_valid() {
                    assert forall|i: int| 0 <= i < self.spend_auth@.len() implies
                        vk_acceptable(#[trigger] self.spend_auth@[i].vk_bytes@) by {
                        assert(self.spend_auth@[i].valid::<SpendAuth>());
                    }
                    assert forall|i: int| 0 <= i < self.binding@.len() implies
                        vk_acceptable(#[trigger] self.binding@[i].vk_bytes@) by {
                        assert(self.binding@[i].valid::<Binding>());
                    }
                }
            }
            return Err(Error::MalformedVerificationKey);
        }
        if reddsa_batch_verify(&self.spend_auth, &self.binding, rng) {
            Ok(())
        } else {
            Err(Error::InvalidSignature)
        }
    }
}

/// Whether every key among `entries` is a valid key.
fn keys_acceptable(entries: &Vec<Entry>) -> (r: bool)
    ensures
        r == forall|i: int| 0 <= i < entries@.len() ==> vk_acceptable(#[trigger] entries@[i].vk_bytes@),
{
    let mut i: usize = 0;
    while i < entries.len()
        invariant
            i <= entries@.len(),
            forall|q: int| 0 <= q < i ==> vk_acceptable(#[trigger] entries@[q].vk_bytes@),
        decreases entries@.len() - i,
    {
        let vk = &entries[i].vk_bytes;
        if !crate::point::Point::is_encoding(vk) || crate::point::Point::is_small_order_encoding(vk) {
            return false;
        }
        i = i + 1;
    }
    true
}

} // verus!
