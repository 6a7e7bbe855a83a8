//! RedJubjub signing keys.
use vstd::prelude::*;

use rand_core::OsRng;
use crate::point::{point_decodes, point_scaled, point_sum, BINDINGSIG_BASEPOINT_BYTES, SPENDAUTHSIG_BASEPOINT_BYTES};
use crate::scalar::{le_nat, modulus, Scalar};
use crate::verification_key::{verifies, vk_of, VerificationKey};
use crate::{Error, Randomizer, SigType, Signature, SpendAuth};
use core::marker::PhantomData;

verus! {

/// The RedDSA signing equation for the signature `sig` on `msg` by the key `sk` with
/// basepoint `base`: R decodes, s is canonical, and s times the basepoint is R plus
/// the verification key times c = H*(R || vk || msg).
pub open spec fn signature_equation(base: Seq<u8>, sk: Seq<u8>, msg: Seq<u8>, sig: Seq<u8>) -> bool {
    let r = sig.subrange(0, 32);
    let s = sig.subrange(32, 64);
    let vk = point_scaled(base, le_nat(sk));
    &&& point_decodes(r)
    &&& le_nat(s) < modulus()
    &&& point_scaled(base, le_nat(s)) == point_sum(r, point_scaled(vk, crate::hash::h_star(r + vk + msg)))
}

/// How many times a zero signing key is drawn again.
pub const MAX_KEY_DRAWS: usize = 8;

/// Draws a signing key. Relies on `reddsa::SigningKey::<sapling::SpendAuth>::new`,
/// whose key is a canonical scalar.
#[verifier::external_body]
fn spend_auth_new(rng: &mut OsRng) -> (r: [u8; 32])
    ensures
        le_nat(r@) < modulus(),
{
    <[u8; 32]>::from(reddsa::SigningKey::<reddsa::sapling::SpendAuth>::new(rng))
}

/// Draws a signing key. Relies on `reddsa::SigningKey::<sapling::Binding>::new`,
/// whose key is a canonical scalar.
#[verifier::external_body]
fn binding_new(rng: &mut OsRng) -> (r: [u8; 32])
    ensures
        le_nat(r@) < modulus(),
{
    <[u8; 32]>::from(reddsa::SigningKey::<reddsa::sapling::Binding>::new(rng))
}

/// Signs `msg`. Relies on `reddsa::SigningKey::<sapling::SpendAuth>::sign`, whose
/// signatures verify under the key's own verification key: R is the encoding of the nonce
/// times the basepoint, s the canonical encoding of the nonce plus c times the key.
#[verifier::external_body]
fn spend_auth_sign(sk: &[u8; 32], rng: &mut OsRng, msg: &[u8]) -> (r: [u8; 64])
    requires
        le_nat(sk@) < modulus(),
    ensures
        verifies::<SpendAuth>(vk_of::<SpendAuth>(sk@), msg@, r@),
        signature_equation(SPENDAUTHSIG_BASEPOINT_BYTES@, sk@, msg@, r@),
{
    let key = reddsa::SigningKey::<reddsa::sapling::SpendAuth>::try_from(*sk).unwrap();
    <[u8; 64]>::from(key.sign(rng, msg))
}

/// Signs `msg`. Relies on `reddsa::SigningKey::<sapling::Binding>::sign`, whose
/// signatures verify under the key's own verification key: R is the encoding of the nonce
/// times the basepoint, s the canonical encoding of the nonce plus c times the key.
#[verifier::external_body]
fn binding_sign(sk: &[u8; 32], rng: &mut OsRng, msg: &[u8]) -> (r: [u8; 64])
    requires
        le_nat(sk@) < modulus(),
    ensures
        verifies::<crate::Binding>(vk_of::<crate::Binding>(sk@), msg@, r@),
        signature_equation(BINDINGSIG_BASEPOINT_BYTES@, sk@, msg@, r@),
{
    let key = reddsa::SigningKey::<reddsa::sapling::Binding>::try_from(*sk).unwrap();
    <[u8; 64]>::from(key.sign(rng, msg))
}

/// Adds `r` to the key. Relies on `reddsa::SigningKey::<sapling::SpendAuth>::randomize`,
/// which adds the randomizer in the scalar field.
#[verifier::external_body]
fn spend_auth_randomize(sk: &[u8; 32], r: &Scalar) -> (out: [u8; 32])
    requires
        le_nat(sk@) < modulus(),
        r.wf(),
    ensures
        le_nat(out@) == (le_nat(sk@) + r.value()) % modulus(),
{
    let key = reddsa::SigningKey::<reddsa::sapling::SpendAuth>::try_from(*sk).unwrap();
    let randomizer = jubjub::Fr::from_bytes(&r.bytes).unwrap();
    <[u8; 32]>::from(key.randomize(&randomizer))
}

/// A RedJubjub signing key: a scalar.
#[derive(Copy, Debug)]
pub struct SigningKey<T: SigType> {
    pub sk: Scalar,
    pub marker: PhantomData<T>,
}

impl<T: SigType> Clone for SigningKey<T> {
    fn clone(&self) -> (r: Self)
        ensures
            r == *self,
    {
        SigningKey { sk: self.sk, marker: PhantomData }
    }
}

impl<T: SigType> SigningKey<T> {
    pub open spec fn wf(&self) -> bool {
        self.sk.wf()
    }

    /// Generate a new signing key.
    ///
    /// The zero key, whose verification key is the identity (of small order), is never
    /// returned: a zero draw is drawn again, up to `MAX_KEY_DRAWS` times, and after that
    /// many zero draws (which no real generator produces) the key one is used instead.
    pub fn new(rng: &mut OsRng) -> (r: SigningKey<T>)
        ensures
            r.wf(),
            r.sk.value() != 0,
    {
        let mut sk = Scalar { bytes: Self::draw(rng) };
        let mut draws: usize = 1;
        while sk.is_zero() && draws < MAX_KEY_DRAWS
            invariant
                sk.wf(),
            decreases MAX_KEY_DRAWS - draws,
        {
            sk = Scalar { bytes: Self::draw(rng) };
            draws = draws + 1;
        }
        if sk.is_zero() {
            sk = Scalar::one();
        }
        SigningKey { sk, marker: PhantomData }
    }

    fn draw(rng: &mut OsRng) -> (r: [u8; 32])
        ensures
            le_nat(r@) < modulus(),
    {
        if T::is_spend_auth() {
            spend_auth_new(rng)
        } else {
            binding_new(rng)
        }
    }

    /// Decodes a signing key from its 32 bytes, failing if they are not a canonical scalar.
    pub fn try_from_bytes(bytes: [u8; 32]) -> (r: Result<SigningKey<T>, Error>)
        ensures
            r.is_ok() <==> le_nat(bytes@) < modulus(),
            r matches Ok(k) ==> k.sk.bytes == bytes && k.wf(),
            r matches Err(e) ==> e == Error::MalformedSigningKey,
    {
        match Scalar::from_canonical_bytes(bytes) {
            Some(sk) => Ok(SigningKey { sk, marker: PhantomData }),
            None => Err(Error::MalformedSigningKey),
        }
    }

    /// The 32 bytes of the key.
    pub fn to_bytes(&self) -> (r: [u8; 32])
        ensures
            r == self.sk.bytes,
    {
        self.sk.bytes
    }

    /// Create a signature of type `T` on `msg` using this `SigningKey`.
    pub fn sign(&self, rng: &mut OsRng, msg: &[u8]) -> (r: Signature<T>)
        requires
            self.wf(),
        ensures
            verifies::<T>(vk_of::<T>(self.sk.bytes@), msg@, r.view_bytes()),
            signature_equation(crate::verification_key::basepoint_of::<T>(), self.sk.bytes@, msg@, r.view_bytes()),
    {
        let bytes = if T::is_spend_auth() {
            spend_auth_sign(&self.sk.bytes, rng, msg)
        } else {
            binding_sign(&self.sk.bytes, rng, msg)
        };
        let r = Signature::from_bytes(bytes);
        proof {
            crate::signature::lemma_signature_round_trip(bytes@, bytes@.subrange(0, 32), bytes@.subrange(32, 64));
        }
        r
    }

    /// The verification key of this signing key.
    pub fn verification_key(&self) -> (r: VerificationKey<T>)
        requires
            self.wf(),
        ensures
            r.decodes(),
            self.sk.value() != 0 ==> r.wf(),
            r.bytes@ == vk_of::<T>(self.sk.bytes@),
    {
        VerificationKey::from_signing_key(self)
    }
}

impl SigningKey<SpendAuth> {
    /// Randomize this signing key with the given `randomizer`.
    pub fn randomize(&self, randomizer: &Randomizer) -> (r: SigningKey<SpendAuth>)
        requires
            self.wf(),
            randomizer.wf(),
        ensures
            r.wf(),
            r.sk.value() == (self.sk.value() + randomizer.value()) % modulus(),
    {
        let bytes = spend_auth_randomize(&self.sk.bytes, randomizer);
        SigningKey { sk: Scalar { bytes }, marker: PhantomData }
    }
}

} // verus!
