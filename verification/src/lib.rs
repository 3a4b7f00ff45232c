//! The perun-channel-lockscript (pcls): the lock script of the cell that holds a Perun channel on
//! CKB.
//!
//! A channel has two participants, each with an unlock script hash of their own. The script lets
//! a transaction spend the channel cell if at least one of its input cells has
//!
//! - the unlock script hash of the first party as its lock script hash, or
//! - the unlock script hash of the second party as its lock script hash.
//!
//! A channel may also name a coordinator, a third party that drives the Coordinate action and
//! whose cells neither participant locks. For such a channel, and for no other, the script lets a
//! transaction through whose channel input carries a Coordinate redeemer in its witness. The type
//! script of the channel checks the signature of the coordinator in the same transaction.
//!
//! [`lock`] is the script itself, [`vm`] the questions that it puts to the CKB-VM, [`run`] which
//! questions a run puts and how it ends, [`rule`] what is decided as a function of the answers, and
//! [`laws`] what holds of runs and of the rule.
pub mod channel;
pub mod error;
pub mod laws;
pub mod lock;
pub mod rule;
pub mod run;
pub mod vm;

pub use lock::{main, program_entry, verify_is_participant, witness_is_coordinate};
