//! What the lock script reads of a channel and of its redeemers.
use vstd::prelude::*;

verus! {

/// What the lock script reads of the constants of a channel.
#[derive(Clone, Copy, Debug, PartialEq, Eq)]
pub struct Channel {
    /// The hash of the script that unlocks the cells of the first party.
    pub party_a_unlock: [u8; 32],
    /// The hash of the script that unlocks the cells of the second party.
    pub party_b_unlock: [u8; 32],
    /// Whether the parameters of the channel name a coordinator.
    pub coordinator_configured: bool,
}

/// What the lock script reads of the redeemer in a channel witness.
#[derive(Clone, Copy, Debug, PartialEq, Eq, Structural)]
pub enum Redeemer {
    /// The redeemer of the action that a coordinator drives.
    Coordinate,
    /// The redeemer of any other action.
    Other,
}

} // verus!
