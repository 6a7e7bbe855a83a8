//! RedJubjub signatures over the Jubjub curve, with batch verification, a
//! dealer-based FROST threshold signing layer and its wire messages.
use vstd::prelude::*;

pub mod batch;
pub mod error;
pub mod frost;
pub mod hash;
pub mod messages;
pub mod point;
pub mod rng;
pub mod scalar;
pub mod signature;
pub mod signing_key;
pub mod verification_key;

pub use error::Error;
pub use hash::{Blake2b512, HStar, StdBlake2b512};
pub use scalar::Scalar;
pub use signature::Signature;
pub use signing_key::SigningKey;
pub use verification_key::{VerificationKey, VerificationKeyBytes};

verus! {

/// An element of the scalar field used to randomize `SpendAuth` keys.
pub type Randomizer = Scalar;

/// Abstracts over the two RedJubjub parameter choices, [`Binding`] and
/// [`SpendAuth`], which differ in their basepoint.
pub trait SigType: Sized {
    /// Whether this is the `SpendAuth` family.
    spec fn spend_auth() -> bool;

    fn is_spend_auth() -> (r: bool)
        ensures
            r == Self::spend_auth(),
    ;
}

/// A type variable corresponding to Zcash's `BindingSig`.
#[derive(Copy, Clone, PartialEq, Eq, Debug)]
pub struct Binding;

impl SigType for Binding {
    open spec fn spend_auth() -> bool {
        false
    }

    fn is_spend_auth() -> (r: bool) {
        false
    }
}

/// A type variable corresponding to Zcash's `SpendAuthSig`.
#[derive(Copy, Clone, PartialEq, Eq, Debug)]
pub struct SpendAuth;

impl SigType for SpendAuth {
    open spec fn spend_auth() -> bool {
        true
    }

    fn is_spend_auth() -> (r: bool) {
        true
    }
}

} // verus!
