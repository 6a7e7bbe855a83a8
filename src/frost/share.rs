//! A participant's share of the group's signing key.
use vstd::prelude::*;

use super::{Config, KeyPackage};
use crate::{Error, SpendAuth, VerificationKey};

verus! {

/// The threshold analogue of a signing key, used for threshold signing.
///
/// A share runs one signing session at a time: `in_session` is set when a
/// session begins and cleared when it ends.
pub struct SecretShare {
    pub config: Config,
    pub key: KeyPackage,
    pub in_session: bool,
}

impl SecretShare {
    pub open spec fn wf(&self) -> bool {
        &&& self.config.wf()
        &&& self.key.wf()
        &&& self.key.index as int == self.config.share_id
    }

    /// A share, outside any session, from a verified key package and its configuration.
    pub fn new(config: Config, key: KeyPackage) -> (r: Result<SecretShare, Error>)
        requires
            key.wf(),
        ensures
            r.is_ok() <==> (config.wf() && key.index as int == config.share_id),
            r matches Ok(s) ==> s.wf() && s.config == config && s.key == key && !s.in_session,
            r matches Err(e) ==> e == Error::InvalidSigners,
    {
        if config.threshold < 1 || config.threshold > config.num_shares || config.share_id < 1
            || config.share_id > config.num_shares || config.num_shares > crate::messages::constants::MAX_SIGNERS
            || key.index as usize != config.share_id {
            return Err(Error::InvalidSigners);
        }
        Ok(SecretShare { config, key, in_session: false })
    }

    /// The group's verification key.
    pub fn group_public(&self) -> (r: VerificationKey<SpendAuth>)
        ensures
            r == self.key.group_public,
    {
        self.key.group_public
    }
}

} // verus!
