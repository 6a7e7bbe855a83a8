//! The hash-to-scalar function H*: personalized BLAKE2b-512 reduced modulo the field order.
use vstd::prelude::*;

use crate::scalar::{le_nat, modulus, Scalar};

verus! {

/// The 64-byte BLAKE2b digest of `data` under the personalization `personal`.
pub uninterp spec fn blake2b_512(personal: Seq<u8>, data: Seq<u8>) -> Seq<u8>;

/// The personalization of H*.
pub const H_STAR_PERSONALIZATION: [u8; 16] = [
    0x5a, 0x63, 0x61, 0x73, 0x68, 0x5f, 0x52, 0x65, 0x64, 0x4a, 0x75, 0x62, 0x6a, 0x75, 0x62, 0x48,
];

/// H* of `data`: the personalized digest read as a little-endian integer, modulo the field order.
pub open spec fn h_star(data: Seq<u8>) -> nat {
    le_nat(blake2b_512(H_STAR_PERSONALIZATION@, data)) % modulus()
}

/// Hashes `data` with BLAKE2b-512 under `personal`.
/// Relies on `blake2b_simd::Params::hash`; `personal` may be at most 16 bytes long.
#[verifier::external_body]
fn blake2b_512_personal(personal: &[u8], data: &[u8]) -> (r: [u8; 64])
    requires
        personal@.len() <= 16,
    ensures
        r@ == blake2b_512(personal@, data@),
{
    *blake2b_simd::Params::new().hash_length(64).personal(personal).hash(data).as_array()
}

/// Appends `data` to `v`.
pub fn append_bytes(v: &mut Vec<u8>, data: &[u8])
    ensures
        final(v)@ == old(v)@ + data@,
{
    let mut i: usize = 0;
    while i < data.len()
        invariant
            i <= data@.len(),
            v@ == old(v)@ + data@.subrange(0, i as int),
        decreases data@.len() - i,
    {
        v.push(data[i]);
        i = i + 1;
        proof {
            assert(data@.subrange(0, i as int) =~= data@.subrange(0, i - 1) + seq![data@[i - 1]]);
        }
    }
    proof {
        assert(data@.subrange(0, data@.len() as int) =~= data@);
    }
}

/// Whether two byte vectors are equal.
pub fn bytes_equal_vec(a: &Vec<u8>, b: &Vec<u8>) -> (r: bool)
    ensures
        r == (a@ == b@),
{
    if a.len() != b.len() {
        return false;
    }
    let mut i: usize = 0;
    while i < a.len()
        invariant
            a@.len() == b@.len(),
            i <= a@.len(),
            forall|j: int| 0 <= j < i ==> a@[j] == b@[j],
        decreases a@.len() - i,
    {
        if a[i] != b[i] {
            return false;
        }
        i = i + 1;
    }
    proof {
        assert(a@ =~= b@);
    }
    true
}

/// A BLAKE2b-512 hasher with a personalization.
pub trait Blake2b512: Sized {
    /// The personalization the hasher was made with.
    spec fn personalization(&self) -> Seq<u8>;

    /// Everything fed to the hasher so far.
    spec fn absorbed(&self) -> Seq<u8>;

    fn new(personalization: &[u8]) -> (r: Self)
        requires
            personalization@.len() <= 16,
        ensures
            r.personalization() == personalization@,
            r.absorbed() == Seq::<u8>::empty(),
    ;

    fn update(&mut self, data: &[u8])
        ensures
            final(self).personalization() == old(self).personalization(),
            final(self).absorbed() == old(self).absorbed() + data@,
    ;

    fn finalize(&self) -> (r: [u8; 64])
        requires
            self.personalization().len() <= 16,
        ensures
            r@ == blake2b_512(self.personalization(), self.absorbed()),
    ;
}

/// The BLAKE2b-512 of the `blake2b_simd` crate; input is buffered until the digest is taken.
pub struct StdBlake2b512 {
    personal: Vec<u8>,
    data: Vec<u8>,
}

impl Blake2b512 for StdBlake2b512 {
    closed spec fn personalization(&self) -> Seq<u8> {
        self.personal@
    }

    closed spec fn absorbed(&self) -> Seq<u8> {
        self.data@
    }

    fn new(personalization: &[u8]) -> (r: Self) {
        let mut personal: Vec<u8> = Vec::new();
        append_bytes(&mut personal, personalization);
        StdBlake2b512 { personal, data: Vec::new() }
    }

    fn update(&mut self, data: &[u8]) {
        append_bytes(&mut self.data, data);
    }

    fn finalize(&self) -> (r: [u8; 64]) {
        blake2b_512_personal(self.personal.as_slice(), self.data.as_slice())
    }
}

/// H*, the hash-to-scalar function of RedJubjub, as a streaming builder.
pub struct HStar<H: Blake2b512> {
    state: H,
}

impl<H: Blake2b512> HStar<H> {
    /// Everything fed to the hash so far.
    pub closed spec fn input(&self) -> Seq<u8> {
        self.state.absorbed()
    }

    pub closed spec fn wf(&self) -> bool {
        self.state.personalization() == H_STAR_PERSONALIZATION@
    }

    /// A hash with no input yet.
    pub fn new() -> (r: Self)
        ensures
            r.wf(),
            r.input() == Seq::<u8>::empty(),
    {
        let state = H::new(&H_STAR_PERSONALIZATION);
        HStar { state }
    }

    /// Add `data` to the hash, and return `Self` for chaining.
    pub fn update(self, data: &[u8]) -> (r: Self)
        requires
            self.wf(),
        ensures
            r.wf(),
            r.input() == self.input() + data@,
    {
        let mut state = self.state;
        state.update(data);
        HStar { state }
    }

    /// Consume `self` to compute the hash output.
    pub fn finalize(self) -> (r: Scalar)
        requires
            self.wf(),
        ensures
            r.wf(),
            r.value() == h_star(self.input()),
    {
        let digest = self.state.finalize();
        Scalar::from_bytes_wide(&digest)
    }
}

impl<H: Blake2b512> Default for HStar<H> {
    /// A hash with no input yet.
    fn default() -> (r: Self)
        ensures
            r.wf(),
            r.input() == Seq::<u8>::empty(),
    {
        HStar::new()
    }
}

/// H* of `data`, in one call.
pub fn hash_to_scalar(data: &[u8]) -> (r: Scalar)
    ensures
        r.wf(),
        r.value() == h_star(data@),
{
    HStar::<StdBlake2b512>::new().update(data).finalize()
}

} // verus!
