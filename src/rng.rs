//! The randomness source: the operating system's generator.
use vstd::prelude::*;


verus! {

#[verifier::external_type_specification]
#[verifier::external_body]
pub struct ExOsRng(rand_core::OsRng);

/// Draws 64 uniformly random bytes.
/// Relies on `rand_core::RngCore::fill_bytes` of `OsRng`; nothing is known of the bytes.
#[verifier::external_body]
pub(crate) fn random_bytes_64(rng: &mut rand_core::OsRng) -> (r: [u8; 64]) {
    let mut bytes = [0u8; 64];
    rand_core::RngCore::fill_bytes(rng, &mut bytes);
    bytes
}

} // verus!
