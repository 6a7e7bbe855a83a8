//! RedJubjub verification keys.
use vstd::prelude::*;

use crate::point::{point_decodes, point_scaled, point_small_order, point_sum, Point, BINDINGSIG_BASEPOINT_BYTES, SPENDAUTHSIG_BASEPOINT_BYTES};
use crate::scalar::{le_nat, modulus};
use crate::{Error, Randomizer, Scalar, SigType, Signature, SigningKey, SpendAuth};
use core::marker::PhantomData;

verus! {

/// Whether `sig` is a valid `SpendAuth` signature on `msg` under the key encoded by `vk`.
pub uninterp spec fn spend_auth_sig_valid(vk: Seq<u8>, msg: Seq<u8>, sig: Seq<u8>) -> bool;

/// Whether `sig` is a valid `Binding` signature on `msg` under the key encoded by `vk`.
pub uninterp spec fn binding_sig_valid(vk: Seq<u8>, msg: Seq<u8>, sig: Seq<u8>) -> bool;

/// The basepoint of the family `T`.
pub open spec fn basepoint_of<T: SigType>() -> Seq<u8> {
    if T::spend_auth() {
        SPENDAUTHSIG_BASEPOINT_BYTES@
    } else {
        BINDINGSIG_BASEPOINT_BYTES@
    }
}

/// The verification key of a signing key, in the family `T`: the signing key times the
/// family's basepoint.
pub open spec fn vk_of<T: SigType>(sk: Seq<u8>) -> Seq<u8> {
    point_scaled(basepoint_of::<T>(), le_nat(sk))
}

/// The `SpendAuth` key `vk` randomized by the scalar `r`: `vk` plus `r` times the basepoint.
pub open spec fn randomized(vk: Seq<u8>, r: nat) -> Seq<u8> {
    point_sum(vk, point_scaled(SPENDAUTHSIG_BASEPOINT_BYTES@, r))
}

/// Whether `sig` is a valid signature of the family `T` on `msg` under the key `vk`:
/// the key decodes and the verification equation holds.
pub open spec fn verifies<T: SigType>(vk: Seq<u8>, msg: Seq<u8>, sig: Seq<u8>) -> bool {
    point_decodes(vk) && if T::spend_auth() {
        spend_auth_sig_valid(vk, msg, sig)
    } else {
        binding_sig_valid(vk, msg, sig)
    }
}

/// Derives a verification key. Relies on `reddsa::VerificationKey::<sapling::SpendAuth>::from`,
/// which encodes the point `sk` times the basepoint; the basepoint has prime order, so a
/// non-zero key gives a point that does not have small order.
#[verifier::external_body]
fn spend_auth_derive(sk: &[u8; 32]) -> (r: [u8; 32])
    requires
        le_nat(sk@) < modulus(),
    ensures
        r@ == point_scaled(SPENDAUTHSIG_BASEPOINT_BYTES@, le_nat(sk@)),
        point_decodes(r@),
        le_nat(sk@) != 0 ==> !point_small_order(r@),
{
    let key = reddsa::SigningKey::<reddsa::sapling::SpendAuth>::try_from(*sk).unwrap();
    <[u8; 32]>::from(reddsa::VerificationKey::from(&key))
}

/// Derives a verification key. Relies on `reddsa::VerificationKey::<sapling::Binding>::from`,
/// which encodes the point `sk` times the basepoint; the basepoint has prime order, so a
/// non-zero key gives a point that does not have small order.
#[verifier::external_body]
fn binding_derive(sk: &[u8; 32]) -> (r: [u8; 32])
    requires
        le_nat(sk@) < modulus(),
    ensures
        r@ == point_scaled(BINDINGSIG_BASEPOINT_BYTES@, le_nat(sk@)),
        point_decodes(r@),
        le_nat(sk@) != 0 ==> !point_small_order(r@),
{
    let key = reddsa::SigningKey::<reddsa::sapling::Binding>::try_from(*sk).unwrap();
    <[u8; 32]>::from(reddsa::VerificationKey::from(&key))
}

/// Checks a signature. Relies on `reddsa::VerificationKey::<sapling::SpendAuth>::verify`.
#[verifier::external_body]
fn spend_auth_check(vk: &[u8; 32], msg: &[u8], sig: &[u8; 64]) -> (r: bool)
    requires
        point_decodes(vk@),
    ensures
        r == spend_auth_sig_valid(vk@, msg@, sig@),
{
    let key = reddsa::VerificationKey::<reddsa::sapling::SpendAuth>::try_from(*vk).unwrap();
    key.verify(msg, &reddsa::Signature::from(*sig)).is_ok()
}

/// Checks a signature. Relies on `reddsa::VerificationKey::<sapling::Binding>::verify`.
#[verifier::external_body]
fn binding_check(vk: &[u8; 32], msg: &[u8], sig: &[u8; 64]) -> (r: bool)
    requires
        point_decodes(vk@),
    ensures
        r == binding_sig_valid(vk@, msg@, sig@),
{
    let key = reddsa::VerificationKey::<reddsa::sapling::Binding>::try_from(*vk).unwrap();
    key.verify(msg, &reddsa::Signature::from(*sig)).is_ok()
}

/// Randomizes a key. Relies on `reddsa::VerificationKey::<sapling::SpendAuth>::randomize`,
/// which adds `r` times the basepoint to the key's point. The basepoint has prime order
/// ℓ, so the key of a scalar `x` becomes the key of `x + r` modulo ℓ.
#[verifier::external_body]
fn spend_auth_randomize_vk(vk: &[u8; 32], r: &Randomizer) -> (out: [u8; 32])
    requires
        point_decodes(vk@),
        r.wf(),
    ensures
        out@ == randomized(vk@, r.value()),
        point_decodes(out@),
        forall|x: nat| x < modulus() && vk@ == #[trigger] point_scaled(SPENDAUTHSIG_BASEPOINT_BYTES@, x)
            ==> out@ == point_scaled(SPENDAUTHSIG_BASEPOINT_BYTES@, (x + r.value()) % modulus()),
{
    let key = reddsa::VerificationKey::<reddsa::sapling::SpendAuth>::try_from(*vk).unwrap();
    let randomizer = jubjub::Fr::from_bytes(&r.bytes).unwrap();
    <[u8; 32]>::from(key.randomize(&randomizer))
}

/// The 32 bytes that encode a verification key, not yet checked.
#[derive(Copy, Debug)]
pub struct VerificationKeyBytes<T: SigType> {
    pub bytes: [u8; 32],
    pub marker: PhantomData<T>,
}

impl<T: SigType> Clone for VerificationKeyBytes<T> {
    fn clone(&self) -> (r: Self)
        ensures
            r == *self,
    {
        VerificationKeyBytes { bytes: self.bytes, marker: PhantomData }
    }
}

impl<T: SigType> VerificationKeyBytes<T> {
    pub fn from_bytes(bytes: [u8; 32]) -> (r: Self)
        ensures
            r.bytes == bytes,
    {
        VerificationKeyBytes { bytes, marker: PhantomData }
    }
}

/// A valid RedJubjub verification key: 32 bytes that encode a curve point.
#[derive(Copy, Debug)]
pub struct VerificationKey<T: SigType> {
    pub bytes: [u8; 32],
    pub marker: PhantomData<T>,
}

/// Whether 32 bytes are accepted as a verification key: they encode a point,
/// and it does not have small order.
pub open spec fn vk_acceptable(b: Seq<u8>) -> bool {
    point_decodes(b) && !point_small_order(b)
}

impl<T: SigType> Clone for VerificationKey<T> {
    fn clone(&self) -> (r: Self)
        ensures
            r == *self,
    {
        VerificationKey { bytes: self.bytes, marker: PhantomData }
    }
}

impl<T: SigType> VerificationKey<T> {
    /// The bytes encode a point.
    pub open spec fn decodes(&self) -> bool {
        point_decodes(self.bytes@)
    }

    /// A valid key: its bytes encode a point that does not have small order.
    pub open spec fn wf(&self) -> bool {
        vk_acceptable(self.bytes@)
    }

    /// Checks 32 bytes as a verification key: they must be the canonical
    /// encoding of a point that does not have small order.
    pub fn try_from_bytes(bytes: VerificationKeyBytes<T>) -> (r: Result<Self, Error>)
        ensures
            r.is_ok() <==> vk_acceptable(bytes.bytes@),
            r matches Ok(k) ==> k.bytes == bytes.bytes && k.wf(),
            r matches Err(e) ==> e == Error::MalformedVerificationKey,
    {
        if !Point::is_encoding(&bytes.bytes) {
            return Err(Error::MalformedVerificationKey);
        }
        if Point::is_small_order_encoding(&bytes.bytes) {
            return Err(Error::MalformedVerificationKey);
        }
        Ok(VerificationKey { bytes: bytes.bytes, marker: PhantomData })
    }

    /// The bytes of this key.
    pub open spec fn to_key_bytes_spec(&self) -> VerificationKeyBytes<T> {
        VerificationKeyBytes { bytes: self.bytes, marker: PhantomData }
    }

    /// The bytes of this key.
    pub fn to_key_bytes(&self) -> (r: VerificationKeyBytes<T>)
        ensures
            r == self.to_key_bytes_spec(),
    {
        VerificationKeyBytes { bytes: self.bytes, marker: PhantomData }
    }

    /// The verification key of a signing key.
    ///
    /// Only the zero key has a key of small order.
    pub fn from_signing_key(sk: &SigningKey<T>) -> (r: Self)
        requires
            sk.wf(),
        ensures
            r.decodes(),
            sk.sk.value() != 0 ==> r.wf(),
            r.bytes@ == vk_of::<T>(sk.sk.bytes@),
    {
        let bytes = if T::is_spend_auth() {
            spend_auth_derive(&sk.sk.bytes)
        } else {
            binding_derive(&sk.sk.bytes)
        };
        VerificationKey { bytes, marker: PhantomData }
    }

    /// Verify a purported `signature` over `msg` made by this verification key.
    pub fn verify(&self, msg: &[u8], signature: &Signature<T>) -> (r: Result<(), Error>)
        requires
            self.decodes(),
        ensures
            r.is_ok() <==> verifies::<T>(self.bytes@, msg@, signature.view_bytes()),
            r matches Err(e) ==> e == Error::InvalidSignature,
    {
        let sig = signature.to_bytes();
        let ok = if T::is_spend_auth() {
            spend_auth_check(&self.bytes, msg, &sig)
        } else {
            binding_check(&self.bytes, msg, &sig)
        };
        if ok {
            Ok(())
        } else {
            Err(Error::InvalidSignature)
        }
    }
}

impl VerificationKey<SpendAuth> {
    /// Randomize this verification key with the given `randomizer`.
    ///
    /// Randomizing the key of a signing key gives the key of the randomized signing key.
    pub fn randomize(&self, randomizer: &Randomizer) -> (r: VerificationKey<SpendAuth>)
        requires
            self.decodes(),
            randomizer.wf(),
        ensures
            r.decodes(),
            r.bytes@ == randomized(self.bytes@, randomizer.value()),
            forall|sk: Seq<u8>| le_nat(sk) < modulus() && self.bytes@ == #[trigger] vk_of::<SpendAuth>(sk)
                ==> r.bytes@ == point_scaled(SPENDAUTHSIG_BASEPOINT_BYTES@, (le_nat(sk) + randomizer.value()) % modulus()),
    {
        let bytes = spend_auth_randomize_vk(&self.bytes, randomizer);
        VerificationKey { bytes, marker: PhantomData }
    }
}

/// A valid key is accepted back from its bytes, unchanged.
pub proof fn lemma_vk_bytes_round_trip<T: SigType>(vk: VerificationKey<T>)
    requires
        vk.wf(),
    ensures
        vk_acceptable(vk.to_key_bytes_spec().bytes@),
        vk.to_key_bytes_spec().bytes == vk.bytes,
{
}

/// Signing with a randomized signing key gives a signature that verifies under the
/// randomized verification key: the inputs are what `SigningKey::randomize`,
/// `SigningKey::sign`, `VerificationKey::from_signing_key` and
/// `VerificationKey::randomize` promise.
pub proof fn lemma_verification_under_randomization(sk: Scalar, r: Scalar, sk_r: Scalar, vk: Seq<u8>,
    vk_r: Seq<u8>, msg: Seq<u8>, sig: Seq<u8>)
    requires
        sk.wf(),
        r.wf(),
        sk_r.wf(),
        sk_r.value() == (sk.value() + r.value()) % modulus(),
        vk == vk_of::<SpendAuth>(sk.bytes@),
        forall|x: Seq<u8>| le_nat(x) < modulus() && vk == #[trigger] vk_of::<SpendAuth>(x)
            ==> vk_r == point_scaled(SPENDAUTHSIG_BASEPOINT_BYTES@, (le_nat(x) + r.value()) % modulus()),
        verifies::<SpendAuth>(vk_of::<SpendAuth>(sk_r.bytes@), msg, sig),
    ensures
        verifies::<SpendAuth>(vk_r, msg, sig),
{
    assert(vk_r == point_scaled(SPENDAUTHSIG_BASEPOINT_BYTES@, (le_nat(sk.bytes@) + r.value()) % modulus()));
}

} // verus!
