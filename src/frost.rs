//! FROST (Flexible Round-Optimized Schnorr Threshold) signatures over RedJubjub,
//! with keys issued by a trusted dealer through verifiable secret sharing.
use vstd::prelude::*;

use crate::point::{identity_encoding, point_scaled, point_sum, Point, SPENDAUTHSIG_BASEPOINT_BYTES};
use crate::scalar::{modulus, Scalar};
use crate::hash::{HStar, StdBlake2b512};

pub mod aggregator;
mod config;
mod share;
pub mod signer;

pub use config::Config;
pub use share::SecretShare;
pub use aggregator::begin_sign;
use crate::{Error, SpendAuth, VerificationKey};
use vstd::arithmetic::div_mod::{lemma_add_mod_noop, lemma_mul_mod_noop_left};
use vstd::arithmetic::power::pow;

verus! {

/// A secret scalar value representing a single signer's secret key.
#[derive(Clone, Copy, Debug)]
pub struct Secret(pub Scalar);

/// A public group element that represents a single signer's public key.
#[derive(Clone, Copy, Debug)]
pub struct Public(pub Point);

/// A commitment to one coefficient of the dealer's secret polynomial.
#[derive(Clone, Copy, Debug)]
pub struct Commitment(pub Point);

/// The commitments to the coefficients of the dealer's secret polynomial _f_,
/// the constant term first; shareholders check their shares against them.
#[derive(Clone, Debug)]
pub struct ShareCommitment(pub Vec<Commitment>);

/// A share of a (t-out-of-n) Shamir secret sharing: the value f(i) for the receiver i.
#[derive(Clone, Debug)]
pub struct Share {
    pub receiver_index: u32,
    pub value: Secret,
    pub commitment: ShareCommitment,
}

/// The encodings of the committed points, in order.
pub open spec fn commitment_points(c: Seq<Commitment>) -> Seq<Seq<u8>> {
    c.map_values(|k: Commitment| k.0.bytes@)
}

/// The values of a sequence of scalars.
pub open spec fn scalar_values(s: Seq<Scalar>) -> Seq<int> {
    s.map_values(|k: Scalar| k.value() as int)
}

/// The polynomial with coefficients `a` (constant term first) evaluated at `x`.
pub open spec fn poly_value(a: Seq<int>, x: int) -> int
    decreases a.len(),
{
    if a.len() == 0 {
        0
    } else {
        a[0] + x * poly_value(a.drop_first(), x)
    }
}

/// The sum over k < n of the committed points `cs[k]`, each multiplied by `x^k`,
/// added from the identity in order.
pub open spec fn vss_sum(cs: Seq<Seq<u8>>, x: int, n: nat) -> Seq<u8>
    decreases n,
{
    if n == 0 {
        identity_encoding()
    } else {
        point_sum(vss_sum(cs, x, (n - 1) as nat), point_scaled(cs[n - 1], (pow(x, (n - 1) as nat) % (modulus() as int)) as nat))
    }
}

impl Share {
    pub open spec fn wf(&self) -> bool {
        &&& self.value.0.wf()
        &&& forall|k: int| 0 <= k < self.commitment.0@.len() ==> (#[trigger] self.commitment.0@[k]).0.wf()
    }

    /// Whether the share is consistent with the commitment: `value` times the
    /// basepoint is the sum of the commitments weighted by powers of the index.
    pub open spec fn consistent(&self) -> bool {
        point_scaled(SPENDAUTHSIG_BASEPOINT_BYTES@, self.value.0.value())
            == vss_sum(commitment_points(self.commitment.0@), self.receiver_index as int, self.commitment.0@.len())
    }
}

impl Share {
    /// Whether two shares have the same index, value and commitments.
    pub open spec fn same_as(&self, other: Share) -> bool {
        &&& self.receiver_index == other.receiver_index
        &&& self.value == other.value
        &&& self.commitment.0@ == other.commitment.0@
    }
}

/// Copies a share.
fn copy_share(s: &Share) -> (r: Share)
    ensures
        r.same_as(*s),
{
    Share { receiver_index: s.receiver_index, value: s.value, commitment: ShareCommitment(copy_commitments(&s.commitment.0)) }
}

/// Copies a sequence of commitments.
fn copy_commitments(v: &Vec<Commitment>) -> (r: Vec<Commitment>)
    ensures
        r@ == v@,
{
    let mut r: Vec<Commitment> = Vec::new();
    let mut i: usize = 0;
    while i < v.len()
        invariant
            i <= v@.len(),
            r@ == v@.subrange(0, i as int),
        decreases v@.len() - i,
    {
        r.push(v[i]);
        i = i + 1;
        proof {
            assert(r@ =~= v@.subrange(0, i as int));
        }
    }
    proof {
        assert(r@ =~= v@);
    }
    r
}

proof fn lemma_horner_step(v: int, c: int, x: int, p: int)
    requires
        v == (x * p) % (modulus() as int),
    ensures
        (((v + c) % (modulus() as int)) * x) % (modulus() as int) == (x * (c + x * p)) % (modulus() as int),
{
    let m = modulus() as int;
    lemma_mul_mod_noop_left(v + c, x, m);
    lemma_add_mod_noop(x * p, c, m);
    vstd::arithmetic::div_mod::lemma_mod_twice(x * p, m);
    lemma_add_mod_noop(v, c, m);
    lemma_mul_mod_noop_left(x * p + c, x, m);
    assert((x * p + c) * x == x * (c + x * p)) by (nonlinear_arith);
}

/// Verifies that a share is consistent with its commitment.
///
/// Participants *MUST* make sure that they all hold the same commitment.
pub fn verify_share(share: &Share) -> (r: Result<(), Error>)
    requires
        share.wf(),
    ensures
        r.is_ok() <==> share.consistent(),
        r matches Err(e) ==> e == Error::InvalidShare,
{
    let basepoint = Point::spend_auth_basepoint();
    let f_result = basepoint.mul(&share.value.0);
    let x = Scalar::from_u64(share.receiver_index as u64);
    let ghost cs = commitment_points(share.commitment.0@);
    let ghost xi = share.receiver_index as int;
    let ghost m = modulus() as int;
    let mut x_to_the_i = Scalar::one();
    let mut sum_so_far = Point::identity();
    let mut i: usize = 0;
    proof {
        vstd::arithmetic::power::lemma_pow0(xi);
    }
    while i < share.commitment.0.len()
        invariant
            share.wf(),
            x.wf(),
            x.value() == xi,
            i <= share.commitment.0@.len(),
            cs == commitment_points(share.commitment.0@),
            m == modulus() as int,
            x_to_the_i.wf(),
            x_to_the_i.value() as int == pow(xi, i as nat) % m,
            sum_so_far.wf(),
            sum_so_far.bytes@ == vss_sum(cs, xi, i as nat),
        decreases share.commitment.0@.len() - i,
    {
        let comm_i = share.commitment.0[i].0;
        let term = comm_i.mul(&x_to_the_i);
        sum_so_far = sum_so_far.add(&term);
        proof {
            lemma_mul_mod_noop_left(pow(xi, i as nat), xi, m);
            vstd::arithmetic::power::lemma_pow_adds(xi, i as nat, 1);
            vstd::arithmetic::power::lemma_pow1(xi);
            assert(pow(xi, i as nat) * xi == pow(xi, (i + 1) as nat));
        }
        x_to_the_i = x_to_the_i.mul(&x);
        i = i + 1;
    }
    if !f_result.equals(&sum_so_far) {
        return Err(Error::InvalidShare);
    }
    Ok(())
}

/// The coefficients of the dealer's polynomial: the secret, then the others.
pub open spec fn polynomial(secret: Scalar, coefficients: Seq<Scalar>) -> Seq<int> {
    seq![secret.value() as int] + scalar_values(coefficients)
}

/// Whether `shares` is the sharing of the polynomial with coefficients `secret`
/// then `coefficients` among `n` receivers: the share of receiver j is f(j), and
/// each carries the commitments to all the coefficients.
pub open spec fn shares_of(shares: Seq<Share>, secret: Scalar, coefficients: Seq<Scalar>, n: nat) -> bool {
    &&& shares.len() == n
    &&& forall|j: int| 0 <= j < n ==> {
        let s = #[trigger] shares[j];
        &&& s.wf()
        &&& s.receiver_index == j + 1
        &&& s.value.0.value() == poly_value(polynomial(secret, coefficients), j + 1) % (modulus() as int)
        &&& s.commitment.0@.len() == coefficients.len() + 1
        &&& forall|k: int| 0 <= k <= coefficients.len() ==>
            (#[trigger] s.commitment.0@[k]).0.bytes@
                == point_scaled(SPENDAUTHSIG_BASEPOINT_BYTES@, polynomial(secret, coefficients)[k] as nat)
    }
}

/// The error that the sharing parameters give, if any.
pub open spec fn sharing_error(numshares: u32, threshold: u32) -> Option<Error> {
    if threshold < 1 {
        Some(Error::ZeroThreshold)
    } else if numshares < 1 {
        Some(Error::ZeroShares)
    } else if threshold > numshares {
        Some(Error::ThresholdExceedShares)
    } else {
        None
    }
}

/// Creates the secret shares of `secret` among `numshares` receivers, `threshold` of
/// whom can reconstruct it, by Shamir secret sharing with the polynomial whose constant
/// term is `secret` and whose other coefficients are `coefficients`; each share carries
/// the commitments to the coefficients, for verifiable secret sharing.
pub fn generate_shares(secret: &Secret, coefficients: &Vec<Scalar>, numshares: u32, threshold: u32) -> (r: Result<Vec<Share>, Error>)
    requires
        secret.0.wf(),
        forall|k: int| 0 <= k < coefficients@.len() ==> (#[trigger] coefficients@[k]).wf(),
        threshold >= 1 ==> coefficients@.len() + 1 == threshold,
    ensures
        sharing_error(numshares, threshold) matches Some(e) ==> r == Err::<Vec<Share>, Error>(e),
        sharing_error(numshares, threshold) is None ==> (r matches Ok(shares) && shares_of(shares@, secret.0, coefficients@, numshares as nat)),
{
    if threshold < 1 {
        return Err(Error::ZeroThreshold);
    }
    if numshares < 1 {
        return Err(Error::ZeroShares);
    }
    if threshold > numshares {
        return Err(Error::ThresholdExceedShares);
    }
    let numcoeffs = coefficients.len();
    let ghost poly = polynomial(secret.0, coefficients@);
    let ghost cv = scalar_values(coefficients@);
    let ghost m = modulus() as int;
    let basepoint = Point::spend_auth_basepoint();

    // Verifiable secret sharing: commit to every coefficient.
    let mut commitment: Vec<Commitment> = Vec::new();
    commitment.push(Commitment(basepoint.mul(&secret.0)));
    let mut k: usize = 0;
    while k < numcoeffs
        invariant
            basepoint.wf(),
            basepoint.bytes == SPENDAUTHSIG_BASEPOINT_BYTES,
            numcoeffs == coefficients@.len(),
            forall|q: int| 0 <= q < coefficients@.len() ==> (#[trigger] coefficients@[q]).wf(),
            poly == polynomial(secret.0, coefficients@),
            k <= numcoeffs,
            commitment@.len() == k + 1,
            forall|q: int| 0 <= q <= k ==> (#[trigger] commitment@[q]).0.wf()
                && commitment@[q].0.bytes@ == point_scaled(SPENDAUTHSIG_BASEPOINT_BYTES@, poly[q] as nat),
        decreases numcoeffs - k,
    {
        commitment.push(Commitment(basepoint.mul(&coefficients[k])));
        k = k + 1;
    }

    // Evaluate the polynomial at each receiver index, by Horner's method.
    let mut shares: Vec<Share> = Vec::new();
    let mut index: u64 = 1;
    while index <= numshares as u64
        invariant
            1 <= index,
            index <= numshares as int + 1,
            secret.0.wf(),
            numcoeffs == coefficients@.len(),
            forall|q: int| 0 <= q < coefficients@.len() ==> (#[trigger] coefficients@[q]).wf(),
            poly == polynomial(secret.0, coefficients@),
            cv == scalar_values(coefficients@),
            m == modulus() as int,
            commitment@.len() == numcoeffs + 1,
            forall|q: int| 0 <= q <= numcoeffs ==> (#[trigger] commitment@[q]).0.wf()
                && commitment@[q].0.bytes@ == point_scaled(SPENDAUTHSIG_BASEPOINT_BYTES@, poly[q] as nat),
            shares@.len() == index - 1,
            shares_of(shares@, secret.0, coefficients@, (index - 1) as nat),
        decreases numshares as u64 + 1 - index,
    {
        let scalar_index = Scalar::from_u64(index);
        let ghost x = index as int;
        let mut value = Scalar::zero();
        let mut i: usize = numcoeffs;
        proof {
            assert(cv.subrange(numcoeffs as int, numcoeffs as int) =~= Seq::<int>::empty());
            assert((x * 0) % m == 0);
        }
        while i > 0
            invariant
                i <= numcoeffs,
                numcoeffs == coefficients@.len(),
                forall|q: int| 0 <= q < coefficients@.len() ==> (#[trigger] coefficients@[q]).wf(),
                cv == scalar_values(coefficients@),
                m == modulus() as int,
                scalar_index.wf(),
                scalar_index.value() == x,
                value.wf(),
                value.value() as int == (x * poly_value(cv.subrange(i as int, numcoeffs as int), x)) % m,
            decreases i,
        {
            let ghost p = poly_value(cv.subrange(i as int, numcoeffs as int), x);
            value = value.add(&coefficients[i - 1]);
            value = value.mul(&scalar_index);
            proof {
                lemma_horner_step((x * p) % m, cv[i - 1], x, p);
                assert(cv.subrange(i - 1, numcoeffs as int).drop_first() =~= cv.subrange(i as int, numcoeffs as int));
            }
            i = i - 1;
        }
        value = value.add(&secret.0);
        proof {
            let p = poly_value(cv, x);
            assert(cv.subrange(0, numcoeffs as int) =~= cv);
            assert(poly.drop_first() =~= cv);
            lemma_add_mod_noop(x * p, secret.0.value() as int, m);
            vstd::arithmetic::div_mod::lemma_mod_twice(x * p, m);
            lemma_add_mod_noop((x * p) % m, secret.0.value() as int, m);
            vstd::arithmetic::div_mod::lemma_small_mod(secret.0.value(), modulus());
        }
        let share = Share {
            receiver_index: index as u32,
            value: Secret(value),
            commitment: ShareCommitment(copy_commitments(&commitment)),
        };
        shares.push(share);
        index = index + 1;
    }
    Ok(shares)
}

/// The secret and public key material a dealer gives one participant.
///
/// The receiver *must* verify it, with [`KeyPackage::try_from_share_package`],
/// before using it.
#[derive(Clone, Debug)]
pub struct SharePackage {
    /// Denotes the participant index each share is owned by.
    pub index: u32,
    /// This participant's share.
    pub share: Share,
    /// This participant's public key.
    pub public: Public,
    /// The public signing key that represents the entire group.
    pub group_public: VerificationKey<SpendAuth>,
}

/// A verified FROST key pair of one participant.
#[derive(Clone, Copy, Debug)]
pub struct KeyPackage {
    pub index: u32,
    pub secret_share: Secret,
    pub public: Public,
    pub group_public: VerificationKey<SpendAuth>,
}

/// The public keys of all signers, and the group public key.
#[derive(Clone, Debug)]
pub struct PublicKeyPackage {
    /// The public key of the signer with index `j + 1` is at position `j`.
    pub signer_pubkeys: Vec<Public>,
    /// The joint public key of the entire group.
    pub group_public: VerificationKey<SpendAuth>,
}

impl SharePackage {
    pub open spec fn wf(&self) -> bool {
        &&& self.share.wf()
        &&& self.public.0.wf()
        &&& self.group_public.decodes()
    }
}

impl KeyPackage {
    pub open spec fn wf(&self) -> bool {
        &&& self.secret_share.0.wf()
        &&& self.public.0.wf()
        &&& self.group_public.decodes()
    }

    /// Verifies the share of a package from the dealer and keeps the key pair.
    ///
    /// Every participant is assumed to have the same view of the dealer's commitment;
    /// applications *must* make sure of that.
    pub fn try_from_share_package(package: SharePackage) -> (r: Result<KeyPackage, Error>)
        requires
            package.wf(),
        ensures
            r.is_ok() <==> package.share.consistent(),
            r matches Err(e) ==> e == Error::InvalidShare,
            r matches Ok(k) ==> k.wf() && k.index == package.index && k.secret_share == package.share.value
                && k.public == package.public && k.group_public == package.group_public,
    {
        match verify_share(&package.share) {
            Ok(()) => Ok(KeyPackage {
                index: package.index,
                secret_share: package.share.value,
                public: package.public,
                group_public: package.group_public,
            }),
            Err(e) => Err(e),
        }
    }
}

impl PublicKeyPackage {
    pub open spec fn wf(&self) -> bool {
        &&& self.group_public.decodes()
        &&& forall|j: int| 0 <= j < self.signer_pubkeys@.len() ==> (#[trigger] self.signer_pubkeys@[j]).0.wf()
    }
}

/// Whether `packages` and `pubkeys` are what the dealer hands out for the polynomial with
/// constant term `secret` and other coefficients `coefficients`, among `n` signers.
pub open spec fn dealt(packages: Seq<SharePackage>, pubkeys: PublicKeyPackage, secret: Scalar, coefficients: Seq<Scalar>, n: nat) -> bool {
    &&& shares_of(packages.map_values(|p: SharePackage| p.share), secret, coefficients, n)
    &&& pubkeys.wf()
    &&& pubkeys.group_public.bytes@ == point_scaled(SPENDAUTHSIG_BASEPOINT_BYTES@, secret.value())
    &&& pubkeys.signer_pubkeys@.len() == n
    &&& forall|j: int| 0 <= j < n ==> {
        let p = #[trigger] packages[j];
        &&& p.wf()
        &&& p.index == j + 1
        &&& p.public.0.bytes@ == point_scaled(SPENDAUTHSIG_BASEPOINT_BYTES@, p.share.value.0.value())
        &&& p.group_public == pubkeys.group_public
        &&& p.share.commitment.0@[0].0.bytes@ == pubkeys.group_public.bytes@
        &&& pubkeys.signer_pubkeys@[j] == p.public
    }
}

/// Deals the keys of `num_signers` signers, `threshold` of whom can sign, from the
/// polynomial with constant term `secret` (the group's secret key) and other
/// coefficients `coefficients`.
pub fn keygen_with_coefficients(num_signers: u32, threshold: u32, secret: &Scalar, coefficients: &Vec<Scalar>)
    -> (r: Result<(Vec<SharePackage>, PublicKeyPackage), Error>)
    requires
        secret.wf(),
        forall|k: int| 0 <= k < coefficients@.len() ==> (#[trigger] coefficients@[k]).wf(),
        threshold >= 1 ==> coefficients@.len() + 1 == threshold,
    ensures
        sharing_error(num_signers, threshold) matches Some(e) ==> r == Err::<(Vec<SharePackage>, PublicKeyPackage), Error>(e),
        sharing_error(num_signers, threshold) is None ==> (r matches Ok(res)
            && dealt(res.0@, res.1, *secret, coefficients@, num_signers as nat)),
{
    let group_key = crate::SigningKey::<SpendAuth> { sk: *secret, marker: core::marker::PhantomData };
    let group_public = group_key.verification_key();
    let shares = match generate_shares(&Secret(*secret), coefficients, num_signers, threshold) {
        Ok(shares) => shares,
        Err(e) => return Err(e),
    };
    let basepoint = Point::spend_auth_basepoint();
    let mut packages: Vec<SharePackage> = Vec::new();
    let mut signer_pubkeys: Vec<Public> = Vec::new();
    let mut i: usize = 0;
    while i < shares.len()
        invariant
            basepoint.wf(),
            basepoint.bytes == SPENDAUTHSIG_BASEPOINT_BYTES,
            group_public.decodes(),
            group_public.bytes@ == point_scaled(SPENDAUTHSIG_BASEPOINT_BYTES@, secret.value()),
            shares_of(shares@, *secret, coefficients@, num_signers as nat),
            i <= shares@.len(),
            packages@.len() == i,
            signer_pubkeys@.len() == i,
            forall|j: int| 0 <= j < i ==> {
                let p = #[trigger] packages@[j];
                &&& p.wf()
                &&& p.share.same_as(shares@[j])
                &&& p.index == j + 1
                &&& p.public.0.bytes@ == point_scaled(SPENDAUTHSIG_BASEPOINT_BYTES@, p.share.value.0.value())
                &&& p.group_public == group_public
                &&& signer_pubkeys@[j] == p.public
            },
        decreases shares@.len() - i,
    {
        let share = copy_share(&shares[i]);
        let signer_public = Public(basepoint.mul(&share.value.0));
        signer_pubkeys.push(signer_public);
        packages.push(SharePackage { index: share.receiver_index, share, public: signer_public, group_public });
        i = i + 1;
    }
    let pubkeys = PublicKeyPackage { signer_pubkeys, group_public };
    proof {
        let ps = packages@.map_values(|p: SharePackage| p.share);
        assert(ps.len() == num_signers);
        assert forall|j: int| 0 <= j < num_signers implies #[trigger] ps[j].same_as(shares@[j]) by {
            assert(ps[j] == packages@[j].share);
        }
        assert forall|j: int| 0 <= j < num_signers implies {
            let s = #[trigger] ps[j];
            &&& s.wf()
            &&& s.receiver_index == j + 1
            &&& s.value.0.value() == poly_value(polynomial(*secret, coefficients@), j + 1) % (modulus() as int)
            &&& s.commitment.0@.len() == coefficients@.len() + 1
            &&& forall|k: int| 0 <= k <= coefficients@.len() ==>
                (#[trigger] s.commitment.0@[k]).0.bytes@
                    == point_scaled(SPENDAUTHSIG_BASEPOINT_BYTES@, polynomial(*secret, coefficients@)[k] as nat)
        } by {
            assert(ps[j].same_as(shares@[j]));
            let t = shares@[j];
            assert(t.wf());
        }
        assert(shares_of(ps, *secret, coefficients@, num_signers as nat));
        assert forall|j: int| 0 <= j < pubkeys.signer_pubkeys@.len() implies (#[trigger] pubkeys.signer_pubkeys@[j]).0.wf() by {
            assert(packages@[j].wf());
        }
        assert(pubkeys.wf());
        assert(dealt(packages@, pubkeys, *secret, coefficients@, num_signers as nat));
    }
    Ok((packages, pubkeys))
}

/// Deals the keys of `num_signers` signers, `threshold` of whom can sign, with a
/// random secret and a random polynomial.
///
/// The result is verifiable secret sharing: a set of shares with one commitment
/// that each participant checks their share against.
pub fn keygen_with_dealer(num_signers: u32, threshold: u32, rng: &mut rand_core::OsRng)
    -> (r: Result<(Vec<SharePackage>, PublicKeyPackage), Error>)
    ensures
        sharing_error(num_signers, threshold) matches Some(e) ==> r == Err::<(Vec<SharePackage>, PublicKeyPackage), Error>(e),
        sharing_error(num_signers, threshold) is None ==> (r matches Ok(res)
            && exists|secret: Scalar, coefficients: Seq<Scalar>| #![auto]
                secret.wf() && coefficients.len() + 1 == threshold
                && (forall|k: int| 0 <= k < coefficients.len() ==> (#[trigger] coefficients[k]).wf())
                && dealt(res.0@, res.1, secret, coefficients, num_signers as nat)),
{
    let secret = Scalar::from_bytes_wide(&crate::rng::random_bytes_64(rng));
    let numcoeffs: u32 = if threshold >= 1 { threshold - 1 } else { 0 };
    let mut coefficients: Vec<Scalar> = Vec::new();
    let mut k: u32 = 0;
    while k < numcoeffs
        invariant
            k <= numcoeffs,
            coefficients@.len() == k,
            forall|q: int| 0 <= q < coefficients@.len() ==> (#[trigger] coefficients@[q]).wf(),
        decreases numcoeffs - k,
    {
        coefficients.push(Scalar::from_bytes_wide(&crate::rng::random_bytes_64(rng)));
        k = k + 1;
    }
    keygen_with_coefficients(num_signers, threshold, &secret, &coefficients)
}

/// The hiding and binding nonces of one signing operation.
///
/// [`SigningNonces`] must be used *only once*: re-using nonces leaks the
/// signer's long-lived signing key.
#[derive(Clone, Copy, Debug)]
pub struct SigningNonces {
    pub hiding: Scalar,
    pub binding: Scalar,
}

impl SigningNonces {
    pub open spec fn wf(&self) -> bool {
        self.hiding.wf() && self.binding.wf()
    }

    /// Draws fresh signing nonces.
    pub fn new(rng: &mut rand_core::OsRng) -> (r: Self)
        ensures
            r.wf(),
    {
        let hiding = Scalar::from_bytes_wide(&crate::rng::random_bytes_64(rng));
        let binding = Scalar::from_bytes_wide(&crate::rng::random_bytes_64(rng));
        SigningNonces { hiding, binding }
    }
}

/// The commitments to a participant's nonces, published in the first round of signing.
/// Each can be used for exactly *one* signature.
#[derive(Clone, Copy, Debug)]
pub struct SigningCommitments {
    pub index: u32,
    pub hiding: Point,
    pub binding: Point,
}

impl SigningCommitments {
    pub open spec fn wf(&self) -> bool {
        self.hiding.wf() && self.binding.wf()
    }

    /// The commitments of participant `index` to `nonces`: each nonce times the
    /// `SpendAuth` basepoint.
    pub fn from_nonces(index: u32, nonces: &SigningNonces) -> (r: Self)
        requires
            nonces.wf(),
        ensures
            r.wf(),
            r.index == index,
            r.hiding.bytes@ == point_scaled(SPENDAUTHSIG_BASEPOINT_BYTES@, nonces.hiding.value()),
            r.binding.bytes@ == point_scaled(SPENDAUTHSIG_BASEPOINT_BYTES@, nonces.binding.value()),
    {
        let basepoint = Point::spend_auth_basepoint();
        SigningCommitments { index, hiding: basepoint.mul(&nonces.hiding), binding: basepoint.mul(&nonces.binding) }
    }
}

/// What the coordinator sends every signer: the message and everyone's commitments.
#[derive(Clone, Debug)]
pub struct SigningPackage {
    /// Message which each participant will sign.
    pub message: Vec<u8>,
    /// The commitments the participants published in the first round.
    pub signing_commitments: Vec<SigningCommitments>,
}

impl SigningPackage {
    pub open spec fn wf(&self) -> bool {
        forall|k: int| 0 <= k < self.signing_commitments@.len() ==> (#[trigger] self.signing_commitments@[k]).wf()
    }
}

/// A participant's signature share, which the coordinator aggregates with the others.
#[derive(Clone, Copy, Debug)]
pub struct SignatureShare {
    /// The participant index.
    pub index: u32,
    /// This participant's response.
    pub signature: Scalar,
}

/// The sum of the points that the group commitment consists of.
pub struct GroupCommitment(pub Point);

/// Generates `num_nonces` nonce pairs for participant `participant_index`, with their
/// commitments; the nonces are kept secret, the commitments published.
pub fn preprocess(num_nonces: u32, participant_index: u32, rng: &mut rand_core::OsRng)
    -> (r: (Vec<SigningNonces>, Vec<SigningCommitments>))
    ensures
        r.0@.len() == num_nonces,
        r.1@.len() == num_nonces,
        forall|k: int| 0 <= k < num_nonces ==> {
            &&& (#[trigger] r.0@[k]).wf()
            &&& r.1@[k].wf()
            &&& r.1@[k].index == participant_index
            &&& r.1@[k].hiding.bytes@ == point_scaled(SPENDAUTHSIG_BASEPOINT_BYTES@, r.0@[k].hiding.value())
            &&& r.1@[k].binding.bytes@ == point_scaled(SPENDAUTHSIG_BASEPOINT_BYTES@, r.0@[k].binding.value())
        },
{
    let mut signing_nonces: Vec<SigningNonces> = Vec::new();
    let mut signing_commitments: Vec<SigningCommitments> = Vec::new();
    let mut k: u32 = 0;
    while k < num_nonces
        invariant
            k <= num_nonces,
            signing_nonces@.len() == k,
            signing_commitments@.len() == k,
            forall|q: int| 0 <= q < k ==> {
                &&& (#[trigger] signing_nonces@[q]).wf()
                &&& signing_commitments@[q].wf()
                &&& signing_commitments@[q].index == participant_index
                &&& signing_commitments@[q].hiding.bytes@ == point_scaled(SPENDAUTHSIG_BASEPOINT_BYTES@, signing_nonces@[q].hiding.value())
                &&& signing_commitments@[q].binding.bytes@ == point_scaled(SPENDAUTHSIG_BASEPOINT_BYTES@, signing_nonces@[q].binding.value())
            },
        decreases num_nonces - k,
    {
        let nonces = SigningNonces::new(rng);
        let commitments = SigningCommitments::from_nonces(participant_index, &nonces);
        let ghost (old_n, old_c) = (signing_nonces@, signing_commitments@);
        signing_commitments.push(commitments);
        signing_nonces.push(nonces);
        proof {
            assert forall|q: int| 0 <= q < k + 1 implies {
                &&& (#[trigger] signing_nonces@[q]).wf()
                &&& signing_commitments@[q].wf()
                &&& signing_commitments@[q].index == participant_index
                &&& signing_commitments@[q].hiding.bytes@ == point_scaled(SPENDAUTHSIG_BASEPOINT_BYTES@, signing_nonces@[q].hiding.value())
                &&& signing_commitments@[q].binding.bytes@ == point_scaled(SPENDAUTHSIG_BASEPOINT_BYTES@, signing_nonces@[q].binding.value())
            } by {
                if q < k {
                    assert(signing_nonces@[q] == old_n[q]);
                    assert(signing_commitments@[q] == old_c[q]);
                }
            }
        }
        k = k + 1;
    }
    (signing_nonces, signing_commitments)
}

/// The domain separator of binding factors: the ASCII bytes of `FROST_rho`.
pub const FROST_RHO: [u8; 9] = [0x46, 0x52, 0x4f, 0x53, 0x54, 0x5f, 0x72, 0x68, 0x6f];

/// The four big-endian bytes of `x`.
pub open spec fn be_u32(x: u32) -> Seq<u8> {
    seq![(x / 0x1000000) as u8, ((x / 0x10000) % 0x100) as u8, ((x / 0x100) % 0x100) as u8, (x % 0x100) as u8]
}

fn be_bytes(x: u32) -> (r: [u8; 4])
    ensures
        r@ == be_u32(x),
{
    let r = [(x / 0x1000000) as u8, ((x / 0x10000) % 0x100) as u8, ((x / 0x100) % 0x100) as u8, (x % 0x100) as u8];
    proof {
        assert(r@ =~= be_u32(x));
    }
    r
}

/// Whether the commitments are in strictly increasing order of participant index: the
/// canonical order in which they are hashed, which also rules out a participant twice.
pub open spec fn ordered_by_index(cs: Seq<SigningCommitments>) -> bool {
    forall|a: int, b: int| 0 <= a < b < cs.len() ==> (#[trigger] cs[a]).index < (#[trigger] cs[b]).index
}

/// Whether no two commitments belong to the same participant.
pub open spec fn distinct_indices(cs: Seq<SigningCommitments>) -> bool {
    forall|a: int, b: int| 0 <= a < b < cs.len() ==> (#[trigger] cs[a]).index != (#[trigger] cs[b]).index
}

/// The commitments of `cs` collated in canonical order: the list in strictly increasing
/// order of index that holds the same commitments. It depends on the set of
/// commitments alone, not on the order in which they arrived.
pub open spec fn canonical_order(cs: Seq<SigningCommitments>) -> Seq<SigningCommitments> {
    choose|s: Seq<SigningCommitments>| ordered_by_index(s) && #[trigger] s.to_set() == cs.to_set()
}

proof fn lemma_canonical_order(cs: Seq<SigningCommitments>, s: Seq<SigningCommitments>)
    requires
        ordered_by_index(s),
        s.to_set() == cs.to_set(),
    ensures
        canonical_order(cs) == s,
{
    let c = canonical_order(cs);
    assert(ordered_by_index(c) && c.to_set() == cs.to_set());
    lemma_ordered_same_set_equal(c, s);
}

proof fn lemma_insert_to_set(v: Seq<SigningCommitments>, p: int, x: SigningCommitments)
    requires
        0 <= p <= v.len(),
    ensures
        v.insert(p, x).to_set() == v.to_set().insert(x),
{
    let w = v.insert(p, x);
    assert forall|y: SigningCommitments| #[trigger] w.to_set().contains(y) <==> v.to_set().insert(x).contains(y) by {
        if w.to_set().contains(y) {
            let k = choose|k: int| 0 <= k < w.len() && w[k] == y;
            if k < p {
                assert(v[k] == y);
            } else if k > p {
                assert(v[k - 1] == y);
            }
        }
        if v.to_set().contains(y) {
            let k = choose|k: int| 0 <= k < v.len() && v[k] == y;
            if k < p {
                assert(w[k] == y);
            } else {
                assert(w[k + 1] == y);
            }
        }
        if y == x {
            assert(w[p] == x);
        }
    }
    assert(w.to_set() =~= v.to_set().insert(x));
}

proof fn lemma_prefix_to_set(cs: Seq<SigningCommitments>, i: int)
    requires
        0 <= i < cs.len(),
    ensures
        cs.subrange(0, i + 1).to_set() == cs.subrange(0, i).to_set().insert(cs[i]),
{
    let a = cs.subrange(0, i);
    let b = cs.subrange(0, i + 1);
    assert(b =~= a.push(cs[i]));
    assert forall|y: SigningCommitments| #[trigger] b.to_set().contains(y) <==> a.to_set().insert(cs[i]).contains(y) by {
        if b.to_set().contains(y) {
            let k = choose|k: int| 0 <= k < b.len() && b[k] == y;
            if k < i {
                assert(a[k] == y);
            }
        }
        if a.to_set().contains(y) {
            let k = choose|k: int| 0 <= k < a.len() && a[k] == y;
            assert(b[k] == y);
        }
        if y == cs[i] {
            assert(b[i] == y);
        }
    }
    assert(b.to_set() =~= a.to_set().insert(cs[i]));
}

/// Collates commitments in canonical order, by insertion; fails when two belong to the
/// same participant.
fn sort_commitments(cs: &Vec<SigningCommitments>) -> (r: Option<Vec<SigningCommitments>>)
    requires
        forall|k: int| 0 <= k < cs@.len() ==> (#[trigger] cs@[k]).wf(),
    ensures
        r is Some <==> distinct_indices(cs@),
        r matches Some(v) ==> v@ == canonical_order(cs@) && ordered_by_index(v@) && v@.to_set() == cs@.to_set()
            && forall|k: int| 0 <= k < v@.len() ==> (#[trigger] v@[k]).wf(),
{
    let mut out: Vec<SigningCommitments> = Vec::new();
    let mut i: usize = 0;
    proof {
        assert(out@.to_set() =~= cs@.subrange(0, 0).to_set());
    }
    while i < cs.len()
        invariant
            i <= cs@.len(),
            forall|k: int| 0 <= k < cs@.len() ==> (#[trigger] cs@[k]).wf(),
            ordered_by_index(out@),
            out@.to_set() == cs@.subrange(0, i as int).to_set(),
            distinct_indices(cs@.subrange(0, i as int)),
            forall|k: int| 0 <= k < out@.len() ==> (#[trigger] out@[k]).wf(),
        decreases cs@.len() - i,
    {
        let x = cs[i];
        let mut p: usize = 0;
        while p < out.len() && out[p].index < x.index
            invariant
                p <= out@.len(),
                forall|q: int| 0 <= q < p ==> (#[trigger] out@[q]).index < x.index,
            decreases out@.len() - p,
        {
            p = p + 1;
        }
        if p < out.len() && out[p].index == x.index {
            proof {
                let y = out@[p as int];
                assert(out@.to_set().contains(y));
                let pre = cs@.subrange(0, i as int);
                assert(pre.to_set().contains(y));
                let q = choose|q: int| 0 <= q < pre.len() && pre[q] == y;
                assert(cs@[q] == y);
                assert(cs@[q].index == cs@[i as int].index);
            }
            return None;
        }
        let ghost old_out = out@;
        out.insert(p, x);
        proof {
            let pre = cs@.subrange(0, i as int);
            lemma_insert_to_set(old_out, p as int, x);
            lemma_prefix_to_set(cs@, i as int);
            assert(out@[p as int] == x);
            // x's index differs from every earlier one.
            assert forall|q: int| 0 <= q < old_out.len() implies (#[trigger] old_out[q]).index != x.index by {
                if q >= p {
                    if q > p {
                        assert(old_out[p as int].index < old_out[q].index);
                    }
                }
            }
            assert forall|a: int, b: int| 0 <= a < b < out@.len() implies (#[trigger] out@[a]).index < (#[trigger] out@[b]).index by {
                if b < p {
                    assert(out@[a] == old_out[a] && out@[b] == old_out[b]);
                } else if b == p {
                    assert(out@[a] == old_out[a]);
                } else if a < p {
                    assert(out@[a] == old_out[a] && out@[b] == old_out[b - 1]);
                    assert(old_out[a].index < x.index);
                    assert(old_out[p as int].index > x.index);
                    if b - 1 > p {
                        assert(old_out[p as int].index < old_out[b - 1].index);
                    }
                } else if a == p {
                    assert(out@[b] == old_out[b - 1]);
                    assert(old_out[p as int].index > x.index);
                    if b - 1 > p {
                        assert(old_out[p as int].index < old_out[b - 1].index);
                    }
                } else {
                    assert(out@[a] == old_out[a - 1] && out@[b] == old_out[b - 1]);
                }
            }
            let next = cs@.subrange(0, i + 1);
            assert forall|a: int, b: int| 0 <= a < b < next.len() implies (#[trigger] next[a]).index != (#[trigger] next[b]).index by {
                if b == i {
                    assert(pre.to_set().contains(next[a]));
                    assert(old_out.to_set().contains(next[a]));
                    let q = choose|q: int| 0 <= q < old_out.len() && old_out[q] == next[a];
                    assert(old_out[q].index != x.index);
                } else {
                    assert(next[a] == pre[a] && next[b] == pre[b]);
                }
            }
            assert forall|k: int| 0 <= k < out@.len() implies (#[trigger] out@[k]).wf() by {
                if k < p {
                    assert(out@[k] == old_out[k]);
                } else if k > p {
                    assert(out@[k] == old_out[k - 1]);
                }
            }
        }
        i = i + 1;
    }
    proof {
        assert(cs@.subrange(0, cs@.len() as int) =~= cs@);
        lemma_canonical_order(cs@, out@);
    }
    Some(out)
}

proof fn lemma_ordered_same_set_equal(a: Seq<SigningCommitments>, b: Seq<SigningCommitments>)
    requires
        ordered_by_index(a),
        ordered_by_index(b),
        a.to_set() == b.to_set(),
    ensures
        a == b,
    decreases a.len(),
{
    if a.len() == 0 {
        if b.len() > 0 {
            assert(a.to_set().contains(b[0]));
        }
        assert(a =~= b);
    } else if b.len() == 0 {
        assert(b.to_set().contains(a[0]));
    } else {
        assert(b.to_set().contains(a[0]));
        let j = choose|j: int| 0 <= j < b.len() && b[j] == a[0];
        assert(a.to_set().contains(b[0]));
        let i = choose|i: int| 0 <= i < a.len() && a[i] == b[0];
        if i > 0 {
            assert(a[0].index < a[i].index);
        }
        if j > 0 {
            assert(b[0].index < b[j].index);
        }
        assert(a[0] == b[0]);
        let (ra, rb) = (a.drop_first(), b.drop_first());
        assert forall|x: SigningCommitments| ra.to_set().contains(x) implies rb.to_set().contains(x) by {
            let k = choose|k: int| 0 <= k < ra.len() && ra[k] == x;
            assert(a.to_set().contains(x));
            assert(a[k + 1] == x);
            assert(a[0].index < a[k + 1].index);
            let q = choose|q: int| 0 <= q < b.len() && b[q] == x;
            assert(q != 0);
            assert(rb[q - 1] == x);
        }
        assert forall|x: SigningCommitments| rb.to_set().contains(x) implies ra.to_set().contains(x) by {
            let k = choose|k: int| 0 <= k < rb.len() && rb[k] == x;
            assert(b.to_set().contains(x));
            assert(b[k + 1] == x);
            assert(b[0].index < b[k + 1].index);
            let q = choose|q: int| 0 <= q < a.len() && a[q] == x;
            assert(q != 0);
            assert(ra[q - 1] == x);
        }
        assert(ra.to_set() =~= rb.to_set());
        lemma_ordered_same_set_equal(ra, rb);
        assert(a =~= seq![a[0]] + ra);
        assert(b =~= seq![b[0]] + rb);
    }
}

/// The collated order, and so every binding factor, depends on the set of commitments
/// alone: two packages holding the same commitments, in whatever order they arrived,
/// have the same canonical order whenever they can be collated (`sort_commitments`
/// collates every package whose participants are distinct).
pub proof fn lemma_binding_factor_order_free(i: u32, msg: Seq<u8>, a: Seq<SigningCommitments>,
    b: Seq<SigningCommitments>, collated: Seq<SigningCommitments>)
    requires
        a.to_set() == b.to_set(),
        ordered_by_index(collated),
        collated.to_set() == a.to_set(),
    ensures
        canonical_order(a) == collated,
        canonical_order(b) == collated,
        binding_factor(i, msg, a) == binding_factor(i, msg, b),
{
    lemma_canonical_order(a, collated);
    lemma_canonical_order(b, collated);
}

/// The hash input contributed by a list of commitments: for each, its index and its two points.
pub open spec fn commitment_list_input(cs: Seq<SigningCommitments>) -> Seq<u8>
    decreases cs.len(),
{
    if cs.len() == 0 {
        Seq::empty()
    } else {
        commitment_list_input(cs.drop_last()) + be_u32(cs.last().index) + cs.last().hiding.bytes@
            + cs.last().binding.bytes@
    }
}

/// The hash input of the binding factor of participant `index`: the commitments are
/// hashed collated by index.
pub open spec fn rho_input(index: u32, msg: Seq<u8>, cs: Seq<SigningCommitments>) -> Seq<u8> {
    FROST_RHO@ + be_u32(index) + crate::scalar::scalar_encoding(crate::hash::h_star(msg))
        + commitment_list_input(canonical_order(cs))
}

/// The binding factor of participant `index`, which binds its share to the message
/// and to the whole set of commitments, collated by index.
pub open spec fn binding_factor(index: u32, msg: Seq<u8>, cs: Seq<SigningCommitments>) -> nat {
    crate::hash::h_star(rho_input(index, msg, cs))
}

/// The group commitment: the sum over the first `n` commitments of the hiding point
/// plus the binding point times the participant's binding factor.
pub open spec fn group_commitment(msg: Seq<u8>, cs: Seq<SigningCommitments>, n: nat) -> Seq<u8>
    decreases n,
{
    if n == 0 {
        identity_encoding()
    } else {
        let c = cs[n - 1];
        point_sum(group_commitment(msg, cs, (n - 1) as nat),
            point_sum(c.hiding.bytes@, point_scaled(c.binding.bytes@, binding_factor(c.index, msg, cs))))
    }
}

/// The Schnorr challenge: H* of the group commitment, the group key and the message.
pub open spec fn challenge(r: Seq<u8>, vk: Seq<u8>, msg: Seq<u8>) -> nat {
    crate::hash::h_star(r + vk + msg)
}

/// Generates the binding factor of participant `index`.
fn gen_rho_i(index: u32, message_hash: &Scalar, package: &SigningPackage) -> (r: Scalar)
    requires
        ordered_by_index(package.signing_commitments@),
        message_hash.wf(),
        message_hash.value() == crate::hash::h_star(package.message@),
    ensures
        r.wf(),
        r.value() == binding_factor(index, package.message@, package.signing_commitments@),
{
    let ghost cs = package.signing_commitments@;
    let ghost prefix = FROST_RHO@ + be_u32(index) + message_hash.bytes@;
    let mut hasher = HStar::<StdBlake2b512>::new().update(&FROST_RHO).update(&be_bytes(index)).update(&message_hash.bytes);
    let mut i: usize = 0;
    proof {
        assert(cs.subrange(0, 0) =~= Seq::<SigningCommitments>::empty());
        assert(hasher.input() =~= prefix + commitment_list_input(cs.subrange(0, 0)));
    }
    while i < package.signing_commitments.len()
        invariant
            cs == package.signing_commitments@,
            i <= cs.len(),
            hasher.wf(),
            hasher.input() == prefix + commitment_list_input(cs.subrange(0, i as int)),
        decreases cs.len() - i,
    {
        let item = &package.signing_commitments[i];
        hasher = hasher.update(&be_bytes(item.index)).update(&item.hiding.bytes).update(&item.binding.bytes);
        proof {
            let s = cs.subrange(0, i + 1);
            assert(s.drop_last() =~= cs.subrange(0, i as int));
            assert(hasher.input() =~= prefix + commitment_list_input(s));
        }
        i = i + 1;
    }
    proof {
        assert(cs.subrange(0, cs.len() as int) =~= cs);
        crate::scalar::lemma_scalar_encoding(*message_hash);
        lemma_canonical_order(cs, cs);
        assert(hasher.input() =~= rho_input(index, package.message@, cs));
    }
    hasher.finalize()
}

/// The binding factors of all the commitments of a package, in order.
fn gen_bindings(package: &SigningPackage) -> (r: Vec<Scalar>)
    requires
        ordered_by_index(package.signing_commitments@),
    ensures
        r@.len() == package.signing_commitments@.len(),
        forall|k: int| 0 <= k < r@.len() ==> (#[trigger] r@[k]).wf()
            && r@[k].value() == binding_factor(package.signing_commitments@[k].index, package.message@, package.signing_commitments@),
{
    // The message is hashed on its own first, so that it cannot collide with the other inputs.
    let message_hash = crate::hash::hash_to_scalar(package.message.as_slice());
    let mut bindings: Vec<Scalar> = Vec::new();
    let mut i: usize = 0;
    while i < package.signing_commitments.len()
        invariant
            message_hash.wf(),
            message_hash.value() == crate::hash::h_star(package.message@),
            ordered_by_index(package.signing_commitments@),
            i <= package.signing_commitments@.len(),
            bindings@.len() == i,
            forall|k: int| 0 <= k < i ==> (#[trigger] bindings@[k]).wf()
                && bindings@[k].value() == binding_factor(package.signing_commitments@[k].index, package.message@, package.signing_commitments@),
        decreases package.signing_commitments@.len() - i,
    {
        bindings.push(gen_rho_i(package.signing_commitments[i].index, &message_hash, package));
        i = i + 1;
    }
    bindings
}

/// Generates the group commitment, which is published as part of the joint signature.
fn gen_group_commitment(package: &SigningPackage, bindings: &Vec<Scalar>) -> (r: GroupCommitment)
    requires
        package.wf(),
        bindings@.len() == package.signing_commitments@.len(),
        forall|k: int| 0 <= k < bindings@.len() ==> (#[trigger] bindings@[k]).wf()
            && bindings@[k].value() == binding_factor(package.signing_commitments@[k].index, package.message@, package.signing_commitments@),
    ensures
        r.0.wf(),
        r.0.bytes@ == group_commitment(package.message@, package.signing_commitments@, package.signing_commitments@.len()),
{
    let mut accumulator = Point::identity();
    let mut i: usize = 0;
    while i < package.signing_commitments.len()
        invariant
            package.wf(),
            bindings@.len() == package.signing_commitments@.len(),
            forall|k: int| 0 <= k < bindings@.len() ==> (#[trigger] bindings@[k]).wf()
                && bindings@[k].value() == binding_factor(package.signing_commitments@[k].index, package.message@, package.signing_commitments@),
            i <= package.signing_commitments@.len(),
            accumulator.wf(),
            accumulator.bytes@ == group_commitment(package.message@, package.signing_commitments@, i as nat),
        decreases package.signing_commitments@.len() - i,
    {
        let commitment = &package.signing_commitments[i];
        let term = commitment.hiding.add(&commitment.binding.mul(&bindings[i]));
        accumulator = accumulator.add(&term);
        i = i + 1;
    }
    GroupCommitment(accumulator)
}

/// Generates the Schnorr challenge.
fn gen_challenge(package: &SigningPackage, group_commitment: &GroupCommitment, group_public: &VerificationKey<SpendAuth>) -> (r: Scalar)
    ensures
        r.wf(),
        r.value() == challenge(group_commitment.0.bytes@, group_public.bytes@, package.message@),
{
    let h = HStar::<StdBlake2b512>::new().update(&group_commitment.0.bytes).update(&group_public.bytes).update(package.message.as_slice());
    proof {
        assert(h.input() =~= group_commitment.0.bytes@ + group_public.bytes@ + package.message@);
    }
    h.finalize()
}

/// The numerator of participant `i`'s Lagrange coefficient over the first `n`
/// commitments: the product of the other indices.
pub open spec fn lagrange_num(cs: Seq<SigningCommitments>, i: u32, n: nat) -> nat
    decreases n,
{
    if n == 0 {
        1
    } else if cs[n - 1].index == i {
        lagrange_num(cs, i, (n - 1) as nat)
    } else {
        (lagrange_num(cs, i, (n - 1) as nat) * (cs[n - 1].index as nat)) % modulus()
    }
}

/// The denominator of participant `i`'s Lagrange coefficient over the first `n`
/// commitments: the product of the other indices minus `i`.
pub open spec fn lagrange_den(cs: Seq<SigningCommitments>, i: u32, n: nat) -> nat
    decreases n,
{
    if n == 0 {
        1
    } else if cs[n - 1].index == i {
        lagrange_den(cs, i, (n - 1) as nat)
    } else {
        ((lagrange_den(cs, i, (n - 1) as nat) as int * ((cs[n - 1].index - i) % (modulus() as int))) % (modulus() as int)) as nat
    }
}

/// The Lagrange coefficient of participant `i` at zero, over the participants of `cs`.
pub open spec fn lagrange_coeff(cs: Seq<SigningCommitments>, i: u32) -> nat {
    (lagrange_num(cs, i, cs.len()) * crate::scalar::inverse_mod(lagrange_den(cs, i, cs.len()))) % modulus()
}

/// Generates the Lagrange coefficient of participant `signer_index`; fails when its
/// denominator is zero.
fn gen_lagrange_coeff(signer_index: u32, package: &SigningPackage) -> (r: Result<Scalar, Error>)
    ensures
        lagrange_den(package.signing_commitments@, signer_index, package.signing_commitments@.len()) == 0
            <==> r == Err::<Scalar, Error>(Error::DuplicateShares),
        lagrange_den(package.signing_commitments@, signer_index, package.signing_commitments@.len()) != 0
            <==> r.is_ok(),
        r matches Ok(l) ==> l.wf() && l.value() == lagrange_coeff(package.signing_commitments@, signer_index),
{
    let ghost cs = package.signing_commitments@;
    let mut num = Scalar::one();
    let mut den = Scalar::one();
    let signer = Scalar::from_u64(signer_index as u64);
    let mut i: usize = 0;
    while i < package.signing_commitments.len()
        invariant
            cs == package.signing_commitments@,
            i <= cs.len(),
            signer.wf(),
            signer.value() == signer_index,
            num.wf(),
            den.wf(),
            num.value() == lagrange_num(cs, signer_index, i as nat),
            den.value() == lagrange_den(cs, signer_index, i as nat),
        decreases cs.len() - i,
    {
        let index = package.signing_commitments[i].index;
        if index != signer_index {
            let x = Scalar::from_u64(index as u64);
            num = num.mul(&x);
            den = den.mul(&x.sub(&signer));
        }
        i = i + 1;
    }
    if den.is_zero() {
        return Err(Error::DuplicateShares);
    }
    Ok(num.mul(&den.invert()))
}

impl SignatureShare {
    /// Tests a participant's signature share before it is aggregated: the response times
    /// the basepoint must equal the participant's commitment plus its public key times the
    /// challenge and its Lagrange coefficient.
    pub fn check_is_valid(&self, pubkey: &Public, lambda_i: &Scalar, commitment: &Point, challenge: &Scalar) -> (r: Result<(), Error>)
        requires
            self.signature.wf(),
            pubkey.0.wf(),
            lambda_i.wf(),
            commitment.wf(),
            challenge.wf(),
        ensures
            r == if share_equation_holds(self.signature.value(), pubkey.0.bytes@, lambda_i.value(), commitment.bytes@, challenge.value()) {
                Ok::<(), Error>(())
            } else {
                Err(Error::InvalidSignatureShare(self.index))
            },
    {
        let lhs = Point::spend_auth_basepoint().mul(&self.signature);
        let rhs = commitment.add(&pubkey.0.mul(challenge).mul(lambda_i));
        if !lhs.equals(&rhs) {
            return Err(Error::InvalidSignatureShare(self.index));
        }
        Ok(())
    }
}

/// Whether `z` times the basepoint is `commitment` plus `pubkey` times `challenge` times `lambda`.
pub open spec fn share_equation_holds(z: nat, pubkey: Seq<u8>, lambda: nat, commitment: Seq<u8>, challenge: nat) -> bool {
    point_scaled(SPENDAUTHSIG_BASEPOINT_BYTES@, z)
        == point_sum(commitment, point_scaled(point_scaled(pubkey, challenge), lambda))
}

/// Whether some commitment of `cs` belongs to participant `i`.
pub open spec fn has_participant(cs: Seq<SigningCommitments>, i: u32) -> bool {
    exists|k: int| 0 <= k < cs.len() && (#[trigger] cs[k]).index == i
}

/// The response of a signer with secret share `x`, nonces `nonces` and index `i`, for
/// the message `msg` and the collated commitments `cs`: `d + e * rho_i + lambda_i * x * c`.
pub open spec fn response(msg: Seq<u8>, cs: Seq<SigningCommitments>, nonces: SigningNonces, i: u32, x: nat,
    group_public: Seq<u8>) -> nat {
    let c = challenge(group_commitment(msg, cs, cs.len()), group_public, msg);
    (nonces.hiding.value() + nonces.binding.value() * binding_factor(i, msg, cs)
        + lagrange_coeff(cs, i) * x * c) % modulus()
}

proof fn lemma_response(d: int, e: int, rho: int, lam: int, x: int, c: int)
    ensures
        ({
            let m = modulus() as int;
            ((d + (e * rho) % m) % m + (((lam * x) % m) * c) % m) % m == (d + e * rho + lam * x * c) % m
        }),
{
    let m = modulus() as int;
    lemma_add_mod_noop(d, e * rho, m);
    vstd::arithmetic::div_mod::lemma_mod_twice(e * rho, m);
    lemma_add_mod_noop(d, (e * rho) % m, m);
    lemma_mul_mod_noop_left(lam * x, c, m);
    lemma_add_mod_noop(d + e * rho, lam * x * c, m);
    lemma_add_mod_noop((d + (e * rho) % m) % m, ((lam * x) % m * c) % m, m);
    vstd::arithmetic::div_mod::lemma_mod_twice(d + e * rho, m);
    vstd::arithmetic::div_mod::lemma_mod_twice(lam * x * c, m);
}

/// Performed once by each participant selected for signing: computes its signature
/// share of the package's message, with the nonces it committed to in the package.
pub fn sign(signing_package: &SigningPackage, participant_nonces: SigningNonces, share_package: &SharePackage)
    -> (r: Result<SignatureShare, Error>)
    requires
        signing_package.wf(),
        participant_nonces.wf(),
        share_package.wf(),
    ensures
        signed(*signing_package, participant_nonces, share_package.index,
            share_package.share.value.0, share_package.group_public.bytes@, r),
{
    sign_share(signing_package, participant_nonces, share_package.index, &share_package.share.value.0, &share_package.group_public)
}

/// Whether `r` is what signing gives: it fails with `DuplicateShares` when two commitments
/// of the package belong to the same participant (or the Lagrange coefficient of `i` does
/// not exist), with `NoMatchingBinding` when `i` has no commitment in the package, and
/// otherwise returns the response of `i` over the commitments collated by index.
pub open spec fn signed(package: SigningPackage, nonces: SigningNonces, i: u32, secret: Scalar,
    group_public: Seq<u8>, r: Result<SignatureShare, Error>) -> bool {
    let given = package.signing_commitments@;
    let cs = canonical_order(given);
    if !distinct_indices(given) {
        r == Err::<SignatureShare, Error>(Error::DuplicateShares)
    } else if lagrange_den(cs, i, cs.len()) == 0 {
        r == Err::<SignatureShare, Error>(Error::DuplicateShares)
    } else if !has_participant(given, i) {
        r == Err::<SignatureShare, Error>(Error::NoMatchingBinding)
    } else {
        r matches Ok(z) && z.index == i && z.signature.wf()
            && z.signature.value() == response(package.message@, cs, nonces, i, secret.value(), group_public)
    }
}

proof fn lemma_has_participant_same_set(a: Seq<SigningCommitments>, b: Seq<SigningCommitments>, i: u32)
    requires
        a.to_set() == b.to_set(),
    ensures
        has_participant(a, i) <==> has_participant(b, i),
{
    if has_participant(a, i) {
        let k = choose|k: int| 0 <= k < a.len() && (#[trigger] a[k]).index == i;
        assert(a.to_set().contains(a[k]));
        let q = choose|q: int| 0 <= q < b.len() && b[q] == a[k];
        assert(b[q].index == i);
    }
    if has_participant(b, i) {
        let k = choose|k: int| 0 <= k < b.len() && (#[trigger] b[k]).index == i;
        assert(b.to_set().contains(b[k]));
        let q = choose|q: int| 0 <= q < a.len() && a[q] == b[k];
        assert(a[q].index == i);
    }
}

/// A copy of `package` with its commitments collated by index, if its participants are distinct.
fn collate(package: &SigningPackage) -> (r: Option<SigningPackage>)
    requires
        package.wf(),
    ensures
        r is Some <==> distinct_indices(package.signing_commitments@),
        r matches Some(c) ==> c.wf() && c.message@ == package.message@
            && c.signing_commitments@ == canonical_order(package.signing_commitments@)
            && ordered_by_index(c.signing_commitments@)
            && c.signing_commitments@.to_set() == package.signing_commitments@.to_set(),
{
    match sort_commitments(&package.signing_commitments) {
        Some(sorted) => {
            let mut message: Vec<u8> = Vec::new();
            crate::hash::append_bytes(&mut message, package.message.as_slice());
            Some(SigningPackage { message, signing_commitments: sorted })
        },
        None => None,
    }
}

/// Computes the signature share of participant `index`, whose secret share is `secret`.
pub fn sign_share(signing_package: &SigningPackage, participant_nonces: SigningNonces, index: u32, secret: &Scalar,
    group_public: &VerificationKey<SpendAuth>) -> (r: Result<SignatureShare, Error>)
    requires
        signing_package.wf(),
        participant_nonces.wf(),
        secret.wf(),
    ensures
        signed(*signing_package, participant_nonces, index, *secret, group_public.bytes@, r),
{
    let ghost given = signing_package.signing_commitments@;
    let collated = match collate(signing_package) {
        Some(c) => c,
        None => return Err(Error::DuplicateShares),
    };
    let signing_package = &collated;
    let ghost cs = signing_package.signing_commitments@;
    proof {
        lemma_has_participant_same_set(given, cs, index);
    }
    let bindings = gen_bindings(signing_package);
    let lambda_i = match gen_lagrange_coeff(index, signing_package) {
        Ok(l) => l,
        Err(e) => return Err(e),
    };
    let group_commitment = gen_group_commitment(signing_package, &bindings);
    let challenge = gen_challenge(signing_package, &group_commitment, group_public);
    let mut k: usize = 0;
    while k < signing_package.signing_commitments.len() && signing_package.signing_commitments[k].index != index
        invariant
            cs == signing_package.signing_commitments@,
            k <= cs.len(),
            forall|q: int| 0 <= q < k ==> (#[trigger] cs[q]).index != index,
        decreases cs.len() - k,
    {
        k = k + 1;
    }
    if k == signing_package.signing_commitments.len() {
        return Err(Error::NoMatchingBinding);
    }
    let participant_rho_i = &bindings[k];
    let value = secret;
    // The Schnorr signature share.
    let signature = participant_nonces.hiding.add(&participant_nonces.binding.mul(participant_rho_i))
        .add(&lambda_i.mul(value).mul(&challenge));
    proof {
        lemma_response(participant_nonces.hiding.value() as int, participant_nonces.binding.value() as int,
            participant_rho_i.value() as int, lambda_i.value() as int, value.value() as int, challenge.value() as int);
        vstd::arithmetic::div_mod::lemma_small_mod(participant_nonces.hiding.value(), modulus());
    }
    Ok(SignatureShare { index, signature })
}

/// The first commitment of `cs` that belongs to participant `i`, if any.
pub open spec fn first_commitment(cs: Seq<SigningCommitments>, i: u32) -> Option<SigningCommitments>
    decreases cs.len(),
{
    if cs.len() == 0 {
        None
    } else if cs[0].index == i {
        Some(cs[0])
    } else {
        first_commitment(cs.drop_first(), i)
    }
}

/// Whether the response of `share` satisfies the share equation for `package`: its
/// response times the basepoint is its commitment (hiding point plus binding point times
/// its binding factor) plus its public key times the challenge and its Lagrange coefficient.
#[verifier::opaque]
pub open spec fn response_valid(msg: Seq<u8>, cs: Seq<SigningCommitments>, pubkeys: PublicKeyPackage, share: SignatureShare) -> bool {
    let c = challenge(group_commitment(msg, cs, cs.len()), pubkeys.group_public.bytes@, msg);
    let i = share.index;
    let cm = first_commitment(cs, i)->Some_0;
    share_equation_holds(share.signature.value(), pubkeys.signer_pubkeys@[i - 1].0.bytes@,
        lagrange_coeff(cs, i),
        point_sum(cm.hiding.bytes@, point_scaled(cm.binding.bytes@, binding_factor(i, msg, cs))), c)
}

/// What the coordinator's check of `share` for `package` gives: its index must name a
/// known signer, its Lagrange coefficient must exist, it must have a commitment in the
/// package, and its response must be valid; the first condition that fails gives the error.
pub open spec fn share_check(msg: Seq<u8>, cs: Seq<SigningCommitments>, pubkeys: PublicKeyPackage, share: SignatureShare) -> Result<(), Error> {
    let i = share.index;
    if !(1 <= i <= pubkeys.signer_pubkeys@.len()) {
        Err(Error::InvalidSigners)
    } else if lagrange_den(cs, i, cs.len()) == 0 {
        Err(Error::DuplicateShares)
    } else if first_commitment(cs, i) is None {
        Err(Error::NoMatchingCommitment)
    } else if response_valid(msg, cs, pubkeys, share) {
        Ok(())
    } else {
        Err(Error::InvalidSignatureShare(i))
    }
}

/// Whether the coordinator accepts `share` for the message `msg` and the collated commitments `cs`.
pub open spec fn share_accepted(msg: Seq<u8>, cs: Seq<SigningCommitments>, pubkeys: PublicKeyPackage, share: SignatureShare) -> bool {
    share_check(msg, cs, pubkeys, share) is Ok
}

/// The sum of the responses of `shares`.
pub open spec fn response_sum(shares: Seq<SignatureShare>) -> int
    decreases shares.len(),
{
    if shares.len() == 0 {
        0
    } else {
        response_sum(shares.drop_last()) + shares.last().signature.value()
    }
}

/// Finds the first commitment of participant `i`.
fn find_commitment(package: &SigningPackage, i: u32) -> (r: Option<usize>)
    ensures
        r is None ==> first_commitment(package.signing_commitments@, i) is None,
        r matches Some(k) ==> k < package.signing_commitments@.len()
            && first_commitment(package.signing_commitments@, i) == Some(package.signing_commitments@[k as int]),
{
    let ghost cs = package.signing_commitments@;
    let mut k: usize = 0;
    proof {
        assert(cs.subrange(0, cs.len() as int) =~= cs);
    }
    while k < package.signing_commitments.len() && package.signing_commitments[k].index != i
        invariant
            cs == package.signing_commitments@,
            k <= cs.len(),
            first_commitment(cs, i) == first_commitment(cs.subrange(k as int, cs.len() as int), i),
        decreases cs.len() - k,
    {
        proof {
            assert(cs.subrange(k as int, cs.len() as int).drop_first() =~= cs.subrange(k + 1, cs.len() as int));
        }
        k = k + 1;
    }
    if k == package.signing_commitments.len() {
        proof {
            assert(cs.subrange(k as int, cs.len() as int) =~= Seq::<SigningCommitments>::empty());
        }
        None
    } else {
        Some(k)
    }
}

proof fn lemma_first_commitment_index(cs: Seq<SigningCommitments>, i: u32)
    ensures
        first_commitment(cs, i) matches Some(c) ==> c.index == i,
    decreases cs.len(),
{
    if cs.len() > 0 && cs[0].index != i {
        lemma_first_commitment_index(cs.drop_first(), i);
    }
}

/// Checks one signature share, as the coordinator does before aggregating.
fn check_share(signing_package: &SigningPackage, signing_share: &SignatureShare, pubkeys: &PublicKeyPackage,
    bindings: &Vec<Scalar>, commitment: &GroupCommitment, challenge: &Scalar) -> (r: Result<(), Error>)
    requires
        signing_package.wf(),
        pubkeys.wf(),
        signing_share.signature.wf(),
        bindings@.len() == signing_package.signing_commitments@.len(),
        forall|k: int| 0 <= k < bindings@.len() ==> (#[trigger] bindings@[k]).wf()
            && bindings@[k].value() == binding_factor(signing_package.signing_commitments@[k].index,
                signing_package.message@, signing_package.signing_commitments@),
        commitment.0.wf(),
        commitment.0.bytes@ == group_commitment(signing_package.message@, signing_package.signing_commitments@,
            signing_package.signing_commitments@.len()),
        challenge.wf(),
        challenge.value() == crate::frost::challenge(commitment.0.bytes@, pubkeys.group_public.bytes@, signing_package.message@),
    ensures
        r == share_check(signing_package.message@, signing_package.signing_commitments@, *pubkeys, *signing_share),
{
    let index = signing_share.index;
    if index == 0 || index as usize > pubkeys.signer_pubkeys.len() {
        return Err(Error::InvalidSigners);
    }
    let signer_pubkey = &pubkeys.signer_pubkeys[(index - 1) as usize];
    let lambda_i = match gen_lagrange_coeff(index, signing_package) {
        Ok(l) => l,
        Err(e) => return Err(e),
    };
    let k = match find_commitment(signing_package, index) {
        Some(k) => k,
        None => return Err(Error::NoMatchingCommitment),
    };
    proof {
        lemma_first_commitment_index(signing_package.signing_commitments@, index);
    }
    let signer_commitment = &signing_package.signing_commitments[k];
    let commitment_i = signer_commitment.hiding.add(&signer_commitment.binding.mul(&bindings[k]));
    let r = signing_share.check_is_valid(signer_pubkey, &lambda_i, &commitment_i, challenge);
    proof {
        let cs = signing_package.signing_commitments@;
        let cm = first_commitment(cs, index)->Some_0;
        assert(cm == cs[k as int]);
        assert(r.is_ok() <==> response_valid(signing_package.message@, cs, *pubkeys, *signing_share)) by {
            reveal(response_valid);
        }
    }
    r
}

/// Verifies each participant's signature share and, if all are valid, sums them into
/// the joint signature: the group commitment and the sum of the responses.
///
/// The result verifies as a plain `SpendAuth` signature under the group public key.
/// The coordinator may be one of the signers or a third party trusted not to deny
/// service; it learns no secret.
pub fn aggregate(signing_package: &SigningPackage, signing_shares: &Vec<SignatureShare>, pubkeys: &PublicKeyPackage)
    -> (r: Result<crate::Signature<SpendAuth>, Error>)
    requires
        signing_package.wf(),
        pubkeys.wf(),
        forall|j: int| 0 <= j < signing_shares@.len() ==> (#[trigger] signing_shares@[j]).signature.wf(),
    ensures
        ({
            let given = signing_package.signing_commitments@;
            let msg = signing_package.message@;
            let cs = canonical_order(given);
            &&& !distinct_indices(given) ==> r == Err::<crate::Signature<SpendAuth>, Error>(Error::DuplicateShares)
            &&& r.is_ok() <==> distinct_indices(given) && forall|j: int| 0 <= j < signing_shares@.len()
                ==> share_accepted(msg, cs, *pubkeys, #[trigger] signing_shares@[j])
            &&& distinct_indices(given) ==> (r matches Err(e) ==> exists|j: int| 0 <= j < signing_shares@.len()
                && (forall|q: int| 0 <= q < j ==> share_accepted(msg, cs, *pubkeys, #[trigger] signing_shares@[q]))
                && share_check(msg, cs, *pubkeys, signing_shares@[j]) == Err::<(), Error>(e))
            &&& r matches Ok(sig) ==> sig.r_bytes@ == group_commitment(msg, cs, cs.len())
                && crate::scalar::le_nat(sig.s_bytes@) == response_sum(signing_shares@) % (modulus() as int)
        }),
{
    let ghost given = signing_package.signing_commitments@;
    let ghost given_msg = signing_package.message@;
    let collated = match collate(signing_package) {
        Some(c) => c,
        None => return Err(Error::DuplicateShares),
    };
    let pkg = &collated;
    let ghost cs = pkg.signing_commitments@;
    let ghost msg = pkg.message@;
    let bindings = gen_bindings(pkg);
    let commitment = gen_group_commitment(pkg, &bindings);
    let challenge = gen_challenge(pkg, &commitment, &pubkeys.group_public);
    let mut j: usize = 0;
    while j < signing_shares.len()
        invariant
            pkg.wf(),
            pubkeys.wf(),
            forall|q: int| 0 <= q < signing_shares@.len() ==> (#[trigger] signing_shares@[q]).signature.wf(),
            cs == pkg.signing_commitments@,
            msg == pkg.message@,
            bindings@.len() == cs.len(),
            forall|k: int| 0 <= k < bindings@.len() ==> (#[trigger] bindings@[k]).wf()
                && bindings@[k].value() == binding_factor(cs[k].index, msg, cs),
            commitment.0.wf(),
            commitment.0.bytes@ == group_commitment(msg, cs, cs.len()),
            challenge.wf(),
            challenge.value() == crate::frost::challenge(commitment.0.bytes@, pubkeys.group_public.bytes@, msg),
            ordered_by_index(cs),
            cs == canonical_order(given),
            msg == given_msg,
            distinct_indices(given),
            given == signing_package.signing_commitments@,
            given_msg == signing_package.message@,
            j <= signing_shares@.len(),
            forall|q: int| 0 <= q < j ==> share_accepted(msg, cs, *pubkeys, #[trigger] signing_shares@[q]),
        decreases signing_shares@.len() - j,
    {
        match check_share(pkg, &signing_shares[j], pubkeys, &bindings, &commitment, &challenge) {
            Ok(()) => {},
            Err(e) => {
                proof {
                    assert(share_check(msg, cs, *pubkeys, signing_shares@[j as int]) == Err::<(), Error>(e));
                    assert(!share_accepted(msg, cs, *pubkeys, signing_shares@[j as int]));
                }
                return Err(e);
            },
        }
        j = j + 1;
    }

    // The aggregation of the signature shares by summing them up, resulting in
    // a plain Schnorr signature.
    let mut z = Scalar::zero();
    let mut j: usize = 0;
    while j < signing_shares.len()
        invariant
            forall|q: int| 0 <= q < signing_shares@.len() ==> (#[trigger] signing_shares@[q]).signature.wf(),
            j <= signing_shares@.len(),
            z.wf(),
            z.value() as int == response_sum(signing_shares@.subrange(0, j as int)) % (modulus() as int),
        decreases signing_shares@.len() - j,
    {
        let ghost before = z.value() as int;
        z = z.add(&signing_shares[j].signature);
        proof {
            let m = modulus() as int;
            let pre = signing_shares@.subrange(0, j as int);
            let next = signing_shares@.subrange(0, j + 1);
            assert(next.drop_last() =~= pre);
            let v = signing_shares@[j as int].signature.value() as int;
            lemma_add_mod_noop(response_sum(pre), v, m);
            vstd::arithmetic::div_mod::lemma_small_mod(v as nat, modulus());
            vstd::arithmetic::div_mod::lemma_mod_twice(response_sum(pre), m);
            lemma_add_mod_noop(before, v, m);
        }
        j = j + 1;
    }
    proof {
        assert(signing_shares@.subrange(0, signing_shares@.len() as int) =~= signing_shares@);
    }
    Ok(crate::Signature { r_bytes: commitment.0.bytes, s_bytes: z.bytes, marker: core::marker::PhantomData })
}

} // verus!
