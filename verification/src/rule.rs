//! The rule that the lock script enforces, as a function of what the VM answers.
use vstd::prelude::*;

use crate::channel::{Channel, Redeemer};
use crate::error::{Error, SysError};
use crate::vm::{Exchange, Source};

verus! {

/// What the VM answers while one transaction is checked.
pub struct Transaction {
    /// The args of the running lock script.
    pub script_args: Result<Seq<u8>, SysError>,
    /// The args of the type script of each cell of a list.
    pub type_args: spec_fn(Source, int) -> Result<Option<Seq<u8>>, SysError>,
    /// The lock hash of each cell of a list.
    pub lock_hashes: spec_fn(Source, int) -> Result<Seq<u8>, SysError>,
    /// The `input_type` field of the witness args of each input of a list.
    pub input_types: spec_fn(Source, int) -> Result<Option<Seq<u8>>, SysError>,
}

/// What the bytes in a transaction stand for.
pub struct Codec {
    /// The channel that the args of a channel type script stand for.
    pub channel: spec_fn(Seq<u8>) -> Channel,
    /// The redeemer that the bytes of a witness stand for; `None` where they stand for none.
    pub redeemer: spec_fn(Seq<u8>) -> Option<Redeemer>,
}

impl Transaction {
    /// Whether this one answer is an answer about this transaction.
    pub open spec fn gives(self, exchange: Exchange) -> bool {
        match exchange {
            Exchange::Script { args } => args == self.script_args,
            Exchange::CellType { source, index, type_args } => type_args == (self.type_args)(
                source,
                index as int,
            ),
            Exchange::LockHash { source, index, lock_hash } => lock_hash == (self.lock_hashes)(
                source,
                index as int,
            ),
            Exchange::InputType { source, index, input_type } => input_type == (self.input_types)(
                source,
                index as int,
            ),
        }
    }

    /// Whether every answer in the transcript is an answer about this transaction.
    pub open spec fn answers(self, transcript: Seq<Exchange>) -> bool {
        forall|k: int| 0 <= k < transcript.len() ==> self.gives(#[trigger] transcript[k])
    }

    /// The lock hash of each input cell of the transaction.
    pub open spec fn input_locks(self) -> spec_fn(int) -> Result<Seq<u8>, SysError> {
        |i: int| (self.lock_hashes)(Source::Input, i)
    }

    /// The args of the type script of each cell of the script group.
    pub open spec fn group_types(self) -> spec_fn(int) -> Result<Option<Seq<u8>>, SysError> {
        |i: int| (self.type_args)(Source::GroupInput, i)
    }

    /// The `input_type` field of the witness args of each input of the script group.
    pub open spec fn group_witnesses(self) -> spec_fn(int) -> Result<Option<Seq<u8>>, SysError> {
        |i: int| (self.input_types)(Source::GroupInput, i)
    }
}

impl Codec {
    /// Whether `decode` turns the args of channel type scripts into the channels of this codec.
    pub open spec fn reads_channels<F: Fn(&[u8]) -> Channel>(self, decode: F) -> bool {
        forall|args: &[u8], channel: Channel| #[trigger]
            call_ensures(decode, (args,), channel) ==> channel == (self.channel)(args@)
    }

    /// Whether `decode` turns the bytes of witnesses into the redeemers of this codec.
    pub open spec fn reads_redeemers<F: Fn(&[u8]) -> Option<Redeemer>>(self, decode: F) -> bool {
        forall|bytes: &[u8], redeemer: Option<Redeemer>| #[trigger]
            call_ensures(decode, (bytes,), redeemer) ==> redeemer == (self.redeemer)(bytes@)
    }
}

/// The decision at the first index from `from` on at which there is one. Indices run up to the
/// largest that a machine word can count past.
pub open spec fn first_decision<R>(decisions: spec_fn(int) -> Option<R>, from: int) -> Option<R>
    decreases usize::MAX - from,
{
    if from >= usize::MAX {
        None
    } else if decisions(from) is Some {
        decisions(from)
    } else {
        first_decision(decisions, from + 1)
    }
}

/// What one answer about a lock hash decides in the search for a participant: a hash of either
/// party ends it with success, the end of the inputs without, any other refusal with an error.
pub open spec fn input_decision(
    reply: Result<Seq<u8>, SysError>,
    unlock_a: Seq<u8>,
    unlock_b: Seq<u8>,
) -> Option<Result<bool, Error>> {
    match reply {
        Ok(hash) => if hash == unlock_a || hash == unlock_b {
            Some(Ok(true))
        } else {
            None
        },
        Err(SysError::IndexOutOfBound) => Some(Ok(false)),
        Err(err) => Some(Err(Error::Sys(err))),
    }
}

/// What each input of the transaction decides in the search for a participant.
pub open spec fn input_decisions(
    tx: Transaction,
    unlock_a: Seq<u8>,
    unlock_b: Seq<u8>,
) -> spec_fn(int) -> Option<Result<bool, Error>> {
    |i: int| input_decision((tx.input_locks())(i), unlock_a, unlock_b)
}

/// Whether an input cell of the transaction is locked by one of the two parties.
pub open spec fn participates(tx: Transaction, unlock_a: Seq<u8>, unlock_b: Seq<u8>) -> Result<
    bool,
    Error,
> {
    match first_decision(input_decisions(tx, unlock_a, unlock_b), 0) {
        Some(outcome) => outcome,
        None => Ok(false),
    }
}

/// Whether an answer about a witness holds a Coordinate redeemer.
pub open spec fn coordinates(codec: Codec, reply: Result<Option<Seq<u8>>, SysError>) -> bool {
    match reply {
        Ok(Some(bytes)) => (codec.redeemer)(bytes) == Some(Redeemer::Coordinate),
        _ => false,
    }
}

/// Whether the transaction may spend the input at `index` of the script group, which holds
/// `channel`.
pub open spec fn authorizes(tx: Transaction, codec: Codec, channel: Channel, index: int) -> Result<
    bool,
    Error,
> {
    match participates(tx, channel.party_a_unlock@, channel.party_b_unlock@) {
        Ok(participant) => Ok(
            participant || (channel.coordinator_configured && coordinates(
                codec,
                (tx.group_witnesses())(index),
            )),
        ),
        Err(err) => Err(err),
    }
}

/// What the input at `index` of the script group decides: an authorized one nothing, the end of
/// the group that the transaction is accepted, anything else that it is refused.
pub open spec fn group_decision(tx: Transaction, codec: Codec, index: int) -> Option<
    Result<(), Error>,
> {
    match (tx.group_types())(index) {
        Ok(Some(args)) => match authorizes(tx, codec, (codec.channel)(args), index) {
            Ok(true) => None,
            Ok(false) => Some(Err(Error::NotParticipant)),
            Err(err) => Some(Err(err)),
        },
        Ok(None) => Some(Err(Error::PCTSNotFound)),
        Err(SysError::IndexOutOfBound) => Some(Ok(())),
        Err(err) => Some(Err(Error::Sys(err))),
    }
}

/// What each input of the script group decides.
pub open spec fn group_decisions(tx: Transaction, codec: Codec) -> spec_fn(int) -> Option<
    Result<(), Error>,
> {
    |i: int| group_decision(tx, codec, i)
}

/// What the args of the running lock script decide: it takes none.
pub open spec fn args_verdict(reply: Result<Seq<u8>, SysError>) -> Result<(), Error> {
    match reply {
        Ok(args) => if args.len() == 0 {
            Ok(())
        } else {
            Err(Error::PCLSWithArgs)
        },
        Err(err) => Err(Error::Sys(err)),
    }
}

/// Whether the lock script accepts the transaction, and if not, why.
pub open spec fn verdict(tx: Transaction, codec: Codec) -> Result<(), Error> {
    match args_verdict(tx.script_args) {
        Ok(()) => match first_decision(group_decisions(tx, codec), 0) {
            Some(outcome) => outcome,
            None => Ok(()),
        },
        Err(err) => Err(err),
    }
}

} // verus!
