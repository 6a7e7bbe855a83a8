//! Points of the Jubjub curve, held as their canonical 32-byte encodings.
use vstd::prelude::*;

use crate::scalar::Scalar;

verus! {

/// Whether `b` is the canonical encoding of a point on the curve.
pub uninterp spec fn point_decodes(b: Seq<u8>) -> bool;

/// Whether the point that `b` encodes has small order (is killed by the cofactor).
pub uninterp spec fn point_small_order(b: Seq<u8>) -> bool;

/// The encoding of the sum of the points that `a` and `b` encode.
pub uninterp spec fn point_sum(a: Seq<u8>, b: Seq<u8>) -> Seq<u8>;

/// The encoding of the point that `p` encodes, multiplied by the scalar `k`.
pub uninterp spec fn point_scaled(p: Seq<u8>, k: nat) -> Seq<u8>;

/// The encoding of the identity, the point (0, 1).
pub open spec fn identity_encoding() -> Seq<u8> {
    seq![1u8].add(Seq::new(31, |i: int| 0u8))
}

/// The encoding of the `SpendAuthSig` basepoint (Zcash protocol, section 5.4.6).
pub const SPENDAUTHSIG_BASEPOINT_BYTES: [u8; 32] = [
    48, 181, 242, 170, 173, 50, 86, 48, 188, 221, 219, 206, 77, 103, 101, 109, 5, 253, 28, 194,
    208, 55, 187, 83, 117, 182, 233, 109, 158, 1, 161, 215,
];

/// The encoding of the `BindingSig` basepoint (Zcash protocol, section 5.4.6).
pub const BINDINGSIG_BASEPOINT_BYTES: [u8; 32] = [
    139, 106, 11, 56, 185, 250, 174, 60, 59, 128, 59, 71, 176, 241, 70, 173, 80, 171, 34, 30, 110,
    42, 251, 230, 219, 222, 69, 203, 169, 211, 129, 237,
];

/// Whether `b` encodes a point. Relies on `jubjub::AffinePoint::from_bytes`.
#[verifier::external_body]
fn jubjub_decodes(b: &[u8; 32]) -> (r: bool)
    ensures
        r == point_decodes(b@),
{
    bool::from(jubjub::AffinePoint::from_bytes(*b).is_some())
}

/// Whether the point `b` encodes has small order.
/// Relies on `jubjub::AffinePoint::is_small_order`.
#[verifier::external_body]
fn jubjub_small_order(b: &[u8; 32]) -> (r: bool)
    requires
        point_decodes(b@),
    ensures
        r == point_small_order(b@),
{
    bool::from(jubjub::AffinePoint::from_bytes(*b).unwrap().is_small_order())
}

/// The encoding of the identity. Relies on `jubjub::AffinePoint::identity` and `to_bytes`,
/// which encode (0, 1) as the little-endian 1 with a clear sign bit.
#[verifier::external_body]
fn jubjub_identity() -> (r: [u8; 32])
    ensures
        r@ == identity_encoding(),
        point_decodes(r@),
{
    jubjub::AffinePoint::identity().to_bytes()
}

/// The `SpendAuthSig` basepoint, decoded and encoded again.
/// Relies on `jubjub::AffinePoint::from_bytes` accepting the constant, as reddsa does.
#[verifier::external_body]
fn jubjub_spend_auth_basepoint() -> (r: [u8; 32])
    ensures
        r == SPENDAUTHSIG_BASEPOINT_BYTES,
        point_decodes(r@),
{
    jubjub::AffinePoint::from_bytes(SPENDAUTHSIG_BASEPOINT_BYTES).unwrap().to_bytes()
}

/// The encoding of the sum of two points. Relies on `ExtendedPoint + ExtendedPoint`
/// of jubjub; the encoding of a point always decodes.
#[verifier::external_body]
fn jubjub_add(a: &[u8; 32], b: &[u8; 32]) -> (r: [u8; 32])
    requires
        point_decodes(a@),
        point_decodes(b@),
    ensures
        r@ == point_sum(a@, b@),
        point_decodes(r@),
{
    let a = jubjub::ExtendedPoint::from(jubjub::AffinePoint::from_bytes(*a).unwrap());
    let b = jubjub::ExtendedPoint::from(jubjub::AffinePoint::from_bytes(*b).unwrap());
    jubjub::AffinePoint::from(a + b).to_bytes()
}

/// The encoding of a point times a scalar. Relies on `ExtendedPoint * Fr` of jubjub;
/// the encoding of a point always decodes.
#[verifier::external_body]
fn jubjub_mul(p: &[u8; 32], k: &[u8; 32]) -> (r: [u8; 32])
    requires
        point_decodes(p@),
        crate::scalar::le_nat(k@) < crate::scalar::modulus(),
    ensures
        r@ == point_scaled(p@, crate::scalar::le_nat(k@)),
        point_decodes(r@),
{
    let p = jubjub::ExtendedPoint::from(jubjub::AffinePoint::from_bytes(*p).unwrap());
    jubjub::AffinePoint::from(p * jubjub::Fr::from_bytes(k).unwrap()).to_bytes()
}

/// A curve point, by its canonical encoding.
#[derive(Clone, Copy, Debug)]
pub struct Point {
    pub bytes: [u8; 32],
}

impl Point {
    pub open spec fn wf(&self) -> bool {
        point_decodes(self.bytes@)
    }

    /// Whether `bytes` encodes a point.
    pub fn is_encoding(bytes: &[u8; 32]) -> (r: bool)
        ensures
            r == point_decodes(bytes@),
    {
        jubjub_decodes(bytes)
    }

    /// Whether the encoded point has small order.
    pub fn is_small_order_encoding(bytes: &[u8; 32]) -> (r: bool)
        requires
            point_decodes(bytes@),
        ensures
            r == point_small_order(bytes@),
    {
        jubjub_small_order(bytes)
    }

    /// Decodes a point, failing on a byte string that encodes none.
    pub fn from_bytes(bytes: [u8; 32]) -> (r: Option<Point>)
        ensures
            r.is_some() <==> point_decodes(bytes@),
            r matches Some(p) ==> p.bytes == bytes && p.wf(),
    {
        if jubjub_decodes(&bytes) {
            Some(Point { bytes })
        } else {
            None
        }
    }

    /// The identity.
    pub fn identity() -> (r: Point)
        ensures
            r.wf(),
            r.bytes@ == identity_encoding(),
    {
        Point { bytes: jubjub_identity() }
    }

    /// The `SpendAuthSig` basepoint.
    pub fn spend_auth_basepoint() -> (r: Point)
        ensures
            r.wf(),
            r.bytes == SPENDAUTHSIG_BASEPOINT_BYTES,
    {
        Point { bytes: jubjub_spend_auth_basepoint() }
    }

    /// Point addition.
    pub fn add(&self, other: &Point) -> (r: Point)
        requires
            self.wf(),
            other.wf(),
        ensures
            r.wf(),
            r.bytes@ == point_sum(self.bytes@, other.bytes@),
    {
        Point { bytes: jubjub_add(&self.bytes, &other.bytes) }
    }

    /// Scalar multiplication.
    pub fn mul(&self, k: &Scalar) -> (r: Point)
        requires
            self.wf(),
            k.wf(),
        ensures
            r.wf(),
            r.bytes@ == point_scaled(self.bytes@, k.value()),
    {
        Point { bytes: jubjub_mul(&self.bytes, &k.bytes) }
    }

    /// Whether two points are equal; encodings are canonical, so this compares bytes.
    pub fn equals(&self, other: &Point) -> (r: bool)
        ensures
            r == (self.bytes@ == other.bytes@),
    {
        bytes_equal(&self.bytes, &other.bytes)
    }
}

/// Whether two 32-byte strings are equal.
pub fn bytes_equal(a: &[u8; 32], b: &[u8; 32]) -> (r: bool)
    ensures
        r == (a@ == b@),
{
    let mut i: usize = 0;
    while i < 32
        invariant
            i <= 32,
            a@.len() == 32,
            b@.len() == 32,
            forall|j: int| 0 <= j < i ==> a@[j] == b@[j],
        decreases 32 - i,
    {
        if a[i] != b[i] {
            return false;
        }
        i = i + 1;
    }
    proof {
        assert(a@ =~= b@);
    }
    true
}

} // verus!
