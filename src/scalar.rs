//! Elements of the Jubjub scalar field, held as canonical little-endian bytes.
use vstd::prelude::*;

use crate::messages::serialize::{le_fixed, pow256};

verus! {

/// The order of the Jubjub prime-order subgroup.
pub open spec fn modulus() -> nat {
    0x0e7db4ea6533afa906673b0101343b00a6682093ccc81082d0970e5ed6f72cb7nat
}

/// The integer that a little-endian byte string denotes.
pub open spec fn le_nat(b: Seq<u8>) -> nat
    decreases b.len(),
{
    if b.len() == 0 {
        0
    } else {
        b[0] as nat + 256 * le_nat(b.drop_first())
    }
}

/// A scalar: the canonical 32-byte little-endian encoding of an element of Fr.
#[derive(Clone, Copy, Debug)]
pub struct Scalar {
    pub bytes: [u8; 32],
}

impl Scalar {
    pub open spec fn value(&self) -> nat {
        le_nat(self.bytes@)
    }

    /// The bytes are a canonical encoding.
    pub open spec fn wf(&self) -> bool {
        self.value() < modulus()
    }
}

/// Whether `b` is canonical. Relies on `jubjub::Fr::from_bytes`, which fails exactly on
/// encodings not below the modulus.
#[verifier::external_body]
fn fr_is_canonical(b: &[u8; 32]) -> (r: bool)
    ensures
        r == (le_nat(b@) < modulus()),
{
    bool::from(jubjub::Fr::from_bytes(b).is_some())
}

/// The 32 little-endian bytes of `n`, which is below the field order.
fn fr_from_u64(n: u64) -> (r: [u8; 32])
    ensures
        le_nat(r@) == n,
{
    let mut out = [0u8; 32];
    let mut v: u64 = n;
    let mut k: usize = 0;
    while k < 32
        invariant
            k <= 32,
            out@.len() == 32,
            out@.subrange(0, k as int) + le_fixed(v as nat, (32 - k) as nat) == le_fixed(n as nat, 32),
        decreases 32 - k,
    {
        let ghost before = out@.subrange(0, k as int);
        let ghost old_v = v;
        let ghost rest = (32 - k - 1) as nat;
        out[k] = (v % 256) as u8;
        v = v / 256;
        proof {
            assert(le_fixed(old_v as nat, (rest + 1) as nat) == seq![(old_v % 256) as u8] + le_fixed((old_v / 256) as nat, rest));
            assert(out@.subrange(0, k + 1) =~= before + seq![(old_v % 256) as u8]);
            assert(out@.subrange(0, k + 1) + le_fixed(v as nat, rest) =~= before + (seq![(old_v % 256) as u8] + le_fixed(v as nat, rest)));
        }
        k = k + 1;
    }
    proof {
        assert(le_fixed(v as nat, 0) =~= Seq::<u8>::empty());
        assert(out@ =~= out@.subrange(0, 32) + le_fixed(v as nat, 0));
        crate::messages::serialize::lemma_le_nat_of_le_fixed(n as nat, 32);
        reveal_with_fuel(pow256, 9);
        crate::messages::serialize::lemma_pow256_mono(8, 32);
        vstd::arithmetic::div_mod::lemma_small_mod(n as nat, pow256(32));
    }
    out
}

/// The 512-bit little-endian integer `b` reduced modulo the field order.
/// Relies on `jubjub::Fr::from_bytes_wide`.
#[verifier::external_body]
fn fr_from_bytes_wide(b: &[u8; 64]) -> (r: [u8; 32])
    ensures
        le_nat(r@) == le_nat(b@) % modulus(),
{
    jubjub::Fr::from_bytes_wide(b).to_bytes()
}

/// Field addition. Relies on `Fr + Fr` of jubjub.
#[verifier::external_body]
fn fr_add(a: &[u8; 32], b: &[u8; 32]) -> (r: [u8; 32])
    requires
        le_nat(a@) < modulus(),
        le_nat(b@) < modulus(),
    ensures
        le_nat(r@) == (le_nat(a@) + le_nat(b@)) % modulus(),
{
    (jubjub::Fr::from_bytes(a).unwrap() + jubjub::Fr::from_bytes(b).unwrap()).to_bytes()
}

/// Field subtraction. Relies on `Fr - Fr` of jubjub.
#[verifier::external_body]
fn fr_sub(a: &[u8; 32], b: &[u8; 32]) -> (r: [u8; 32])
    requires
        le_nat(a@) < modulus(),
        le_nat(b@) < modulus(),
    ensures
        le_nat(r@) as int == (le_nat(a@) - le_nat(b@)) % (modulus() as int),
{
    (jubjub::Fr::from_bytes(a).unwrap() - jubjub::Fr::from_bytes(b).unwrap()).to_bytes()
}

/// Field multiplication. Relies on `Fr * Fr` of jubjub.
#[verifier::external_body]
fn fr_mul(a: &[u8; 32], b: &[u8; 32]) -> (r: [u8; 32])
    requires
        le_nat(a@) < modulus(),
        le_nat(b@) < modulus(),
    ensures
        le_nat(r@) == (le_nat(a@) * le_nat(b@)) % modulus(),
{
    (jubjub::Fr::from_bytes(a).unwrap() * jubjub::Fr::from_bytes(b).unwrap()).to_bytes()
}

/// The multiplicative inverse of a non-zero element. Relies on `jubjub::Fr::invert`,
/// which fails on zero alone; the inverse is unique as the modulus is prime.
#[verifier::external_body]
fn fr_invert(a: &[u8; 32]) -> (r: [u8; 32])
    requires
        le_nat(a@) < modulus(),
        le_nat(a@) != 0,
    ensures
        le_nat(r@) < modulus(),
        (le_nat(r@) * le_nat(a@)) % modulus() == 1,
        le_nat(r@) == inverse_mod(le_nat(a@)),
{
    jubjub::Fr::from_bytes(a).unwrap().invert().unwrap().to_bytes()
}


proof fn lemma_le_nat_zeros(b: Seq<u8>)
    requires
        forall|i: int| 0 <= i < b.len() ==> b[i] == 0,
    ensures
        le_nat(b) == 0,
    decreases b.len(),
{
    if b.len() > 0 {
        lemma_le_nat_zeros(b.drop_first());
    }
}

impl Scalar {
    /// The additive identity.
    pub fn zero() -> (r: Scalar)
        ensures
            r.wf(),
            r.value() == 0,
    {
        let r = Scalar { bytes: [0u8; 32] };
        proof {
            lemma_le_nat_zeros(r.bytes@);
        }
        r
    }

    /// Whether `bytes` is the canonical encoding of a scalar.
    pub fn is_canonical(bytes: &[u8; 32]) -> (r: bool)
        ensures
            r == (le_nat(bytes@) < modulus()),
    {
        fr_is_canonical(bytes)
    }

    /// Decodes a scalar, failing on a non-canonical encoding.
    pub fn from_canonical_bytes(bytes: [u8; 32]) -> (r: Option<Scalar>)
        ensures
            r.is_some() <==> le_nat(bytes@) < modulus(),
            r matches Some(s) ==> s.bytes == bytes && s.wf(),
    {
        if fr_is_canonical(&bytes) {
            Some(Scalar { bytes })
        } else {
            None
        }
    }

    /// The multiplicative identity.
    pub fn one() -> (r: Scalar)
        ensures
            r.wf(),
            r.value() == 1,
    {
        Scalar { bytes: fr_from_u64(1) }
    }

    /// The scalar `n`.
    pub fn from_u64(n: u64) -> (r: Scalar)
        ensures
            r.wf(),
            r.value() == n,
    {
        Scalar { bytes: fr_from_u64(n) }
    }

    /// Reduces a 512-bit little-endian integer modulo the field order.
    pub fn from_bytes_wide(bytes: &[u8; 64]) -> (r: Scalar)
        ensures
            r.wf(),
            r.value() == le_nat(bytes@) % modulus(),
    {
        Scalar { bytes: fr_from_bytes_wide(bytes) }
    }

    /// Field addition.
    pub fn add(&self, other: &Scalar) -> (r: Scalar)
        requires
            self.wf(),
            other.wf(),
        ensures
            r.wf(),
            r.value() == (self.value() + other.value()) % modulus(),
    {
        Scalar { bytes: fr_add(&self.bytes, &other.bytes) }
    }

    /// Field subtraction.
    pub fn sub(&self, other: &Scalar) -> (r: Scalar)
        requires
            self.wf(),
            other.wf(),
        ensures
            r.wf(),
            r.value() as int == (self.value() - other.value()) % (modulus() as int),
    {
        Scalar { bytes: fr_sub(&self.bytes, &other.bytes) }
    }

    /// Field multiplication.
    pub fn mul(&self, other: &Scalar) -> (r: Scalar)
        requires
            self.wf(),
            other.wf(),
        ensures
            r.wf(),
            r.value() == (self.value() * other.value()) % modulus(),
    {
        Scalar { bytes: fr_mul(&self.bytes, &other.bytes) }
    }

    /// The multiplicative inverse of a non-zero scalar.
    pub fn invert(&self) -> (r: Scalar)
        requires
            self.wf(),
            self.value() != 0,
        ensures
            r.wf(),
            (r.value() * self.value()) % modulus() == 1,
            r.value() == inverse_mod(self.value()),
    {
        Scalar { bytes: fr_invert(&self.bytes) }
    }

    /// Whether this is the zero scalar.
    pub fn is_zero(&self) -> (r: bool)
        ensures
            r == (self.value() == 0),
    {
        let mut i: usize = 0;
        while i < 32
            invariant
                i <= 32,
                forall|j: int| 0 <= j < i ==> self.bytes@[j] == 0,
            decreases 32 - i,
        {
            if self.bytes[i] != 0 {
                proof {
                    lemma_le_nat_nonzero(self.bytes@, i as int);
                }
                return false;
            }
            i = i + 1;
        }
        proof {
            lemma_le_nat_zeros(self.bytes@);
        }
        true
    }
}

proof fn lemma_le_nat_nonzero(b: Seq<u8>, i: int)
    requires
        0 <= i < b.len(),
        b[i] != 0,
    ensures
        le_nat(b) != 0,
    decreases b.len(),
{
    if i > 0 {
        lemma_le_nat_nonzero(b.drop_first(), i - 1);
    }
}

/// The canonical 32-byte encoding of the field element `v`.
pub open spec fn scalar_encoding(v: nat) -> Seq<u8> {
    choose|b: Seq<u8>| b.len() == 32 && le_nat(b) == v
}

/// The multiplicative inverse of `a` modulo the field order.
pub open spec fn inverse_mod(a: nat) -> nat {
    choose|v: nat| v < modulus() && #[trigger] ((v * a) % modulus()) == 1
}

/// Byte strings of one length that denote the same integer are equal.
pub proof fn lemma_le_nat_injective(a: Seq<u8>, b: Seq<u8>)
    requires
        a.len() == b.len(),
        le_nat(a) == le_nat(b),
    ensures
        a == b,
    decreases a.len(),
{
    if a.len() == 0 {
        assert(a =~= b);
    } else {
        let ra = le_nat(a.drop_first());
        let rb = le_nat(b.drop_first());
        assert(a[0] == b[0] && ra == rb) by (nonlinear_arith)
            requires
                a[0] + 256 * ra == b[0] + 256 * rb,
                0 <= a[0] < 256,
                0 <= b[0] < 256,
                ra >= 0,
                rb >= 0,
        ;
        lemma_le_nat_injective(a.drop_first(), b.drop_first());
        assert(a =~= seq![a[0]] + a.drop_first());
        assert(b =~= seq![b[0]] + b.drop_first());
    }
}

/// The bytes of a scalar are the canonical encoding of its value.
pub proof fn lemma_scalar_encoding(s: Scalar)
    ensures
        s.bytes@ == scalar_encoding(s.value()),
{
    let b = scalar_encoding(s.value());
    assert(s.bytes@.len() == 32 && le_nat(s.bytes@) == s.value());
    lemma_le_nat_injective(s.bytes@, b);
}

} // verus!
