//! The configuration of a FROST share.
use vstd::prelude::*;

verus! {

/// Configuration data for FROST shares.
#[derive(Clone, Copy, Debug)]
pub struct Config {
    /// The total number of shares for threshold signatures.
    pub num_shares: usize,
    /// The number of shares required for signing.
    pub threshold: usize,
    /// The identifier for this specific share.
    pub share_id: usize,
}

impl Config {
    /// At least one share is needed to sign, at most all of them; the share's
    /// identifier names one of them; and there are at most `MAX_SIGNERS` shares.
    pub open spec fn wf(&self) -> bool {
        &&& 1 <= self.threshold <= self.num_shares
        &&& 1 <= self.share_id <= self.num_shares
        &&& self.num_shares <= crate::messages::constants::MAX_SIGNERS
    }
}

} // verus!
