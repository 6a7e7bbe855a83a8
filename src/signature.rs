//! RedJubjub signatures: 64 bytes, the encoding of R followed by that of s.
use vstd::prelude::*;

use crate::SigType;
use core::marker::PhantomData;

verus! {

/// The 32-byte halves (R, s) of a 64-byte signature.
pub open spec fn signature_halves(b: Seq<u8>) -> (Seq<u8>, Seq<u8>) {
    (b.subrange(0, 32), b.subrange(32, 64))
}

/// The 64 bytes of a signature with halves `r` and `s`.
pub open spec fn signature_join(r: Seq<u8>, s: Seq<u8>) -> Seq<u8> {
    r + s
}

/// A RedJubjub signature.
#[derive(Copy, Debug)]
pub struct Signature<T: SigType> {
    pub r_bytes: [u8; 32],
    pub s_bytes: [u8; 32],
    pub marker: PhantomData<T>,
}

impl<T: SigType> Clone for Signature<T> {
    fn clone(&self) -> (r: Self)
        ensures
            r == *self,
    {
        Signature { r_bytes: self.r_bytes, s_bytes: self.s_bytes, marker: PhantomData }
    }
}

impl<T: SigType> Signature<T> {
    /// The 64 bytes of the signature.
    pub open spec fn view_bytes(&self) -> Seq<u8> {
        signature_join(self.r_bytes@, self.s_bytes@)
    }

    /// Reads a signature from its 64 bytes.
    pub fn from_bytes(bytes: [u8; 64]) -> (r: Signature<T>)
        ensures
            (r.r_bytes@, r.s_bytes@) == signature_halves(bytes@),
    {
        let mut r_bytes = [0u8; 32];
        let mut s_bytes = [0u8; 32];
        let mut i: usize = 0;
        while i < 32
            invariant
                i <= 32,
                forall|j: int| 0 <= j < i ==> r_bytes@[j] == bytes@[j],
                forall|j: int| 0 <= j < i ==> s_bytes@[j] == bytes@[j + 32],
            decreases 32 - i,
        {
            r_bytes[i] = bytes[i];
            s_bytes[i] = bytes[i + 32];
            i = i + 1;
        }
        proof {
            assert(r_bytes@ =~= bytes@.subrange(0, 32));
            assert(s_bytes@ =~= bytes@.subrange(32, 64));
        }
        Signature { r_bytes, s_bytes, marker: PhantomData }
    }

    /// The 64 bytes of the signature.
    pub fn to_bytes(&self) -> (r: [u8; 64])
        ensures
            r@ == self.view_bytes(),
    {
        let mut out = [0u8; 64];
        let mut i: usize = 0;
        while i < 32
            invariant
                i <= 32,
                forall|j: int| 0 <= j < i ==> out@[j] == self.r_bytes@[j],
                forall|j: int| 0 <= j < i ==> out@[j + 32] == self.s_bytes@[j],
            decreases 32 - i,
        {
            out[i] = self.r_bytes[i];
            out[i + 32] = self.s_bytes[i];
            i = i + 1;
        }
        proof {
            assert(out@ =~= self.r_bytes@ + self.s_bytes@);
        }
        out
    }
}

/// Reading a signature from 64 bytes and writing it back gives the same bytes,
/// and writing a signature and reading it back gives the same halves.
pub proof fn lemma_signature_round_trip(b: Seq<u8>, r: Seq<u8>, s: Seq<u8>)
    requires
        b.len() == 64,
        r.len() == 32,
        s.len() == 32,
    ensures
        signature_join(signature_halves(b).0, signature_halves(b).1) == b,
        signature_halves(signature_join(r, s)) == (r, s),
{
    assert(b.subrange(0, 32) + b.subrange(32, 64) =~= b);
    assert((r + s).subrange(0, 32) =~= r);
    assert((r + s).subrange(32, 64) =~= s);
}

} // verus!
