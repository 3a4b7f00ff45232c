//! The ways in which the lock script refuses a transaction.
use vstd::prelude::*;

verus! {

/// Why the VM did not hand out what it was asked for. Each variant stands for the variant of
/// the same name of `ckb_std::error::SysError`.
#[derive(Clone, Copy, Debug, PartialEq, Eq, Structural)]
pub enum SysError {
    /// There is nothing at this index: the list has ended.
    IndexOutOfBound,
    /// The item is there, but not the field that was asked for.
    ItemMissing,
    /// The buffer is too short; the number is the length of the data.
    LengthNotEnough(usize),
    /// The data does not have the encoding it should have.
    Encoding,
    /// Waiting for another process failed.
    WaitFailure,
    /// The file descriptor is not valid.
    InvalidFd,
    /// The other end of the pipe is closed.
    OtherEndClosed,
    /// No more VMs can be spawned.
    MaxVmsSpawned,
    /// No more file descriptors can be created.
    MaxFdsCreated,
    /// Any other error number.
    Unknown(u64),
}

/// Why the lock script refuses.
#[derive(Clone, Copy, Debug, PartialEq, Eq, Structural)]
pub enum Error {
    /// The lock script carries args; it takes none.
    PCLSWithArgs,
    /// An input cell that this script locks has no type script.
    PCTSNotFound,
    /// Neither a participant nor an entitled coordinator stands behind the transaction.
    NotParticipant,
    /// The VM did not hand out what was asked for.
    Sys(SysError),
}

} // verus!
