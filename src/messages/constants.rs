//! The constants of the message format.
use vstd::prelude::*;

verus! {

/// The first version of FROST messages.
pub const BASIC_FROST_SERIALIZATION: u8 = 0;

/// The fixed participant identifier of the dealer.
pub const DEALER_PARTICIPANT_ID: u8 = 254;

/// The fixed participant identifier of the aggregator.
pub const AGGREGATOR_PARTICIPANT_ID: u8 = 255;

/// The largest signer number: two identifiers are kept for the dealer and the aggregator.
pub const MAX_SIGNER_PARTICIPANT_ID: u8 = 253;

/// The largest number of signers: signers 0 to `MAX_SIGNER_PARTICIPANT_ID`.
pub const MAX_SIGNERS: usize = 254;

/// The largest message to sign, in bytes.
pub const MAX_PROTOCOL_MESSAGE_LEN: usize = 2097152;

/// The smallest number of signers of any FROST setup.
pub const MIN_SIGNERS: usize = 2;

/// The smallest number of signers that must sign.
pub const MIN_THRESHOLD: usize = 2;

} // verus!
