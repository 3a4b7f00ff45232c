//! What a run of the lock script asks the VM, and how the answers lead to its outcome.
use vstd::prelude::*;

use crate::channel::{Channel, Redeemer};
use crate::error::{Error, SysError};
use crate::rule::{args_verdict, input_decision};
use crate::vm::{Exchange, Source};

verus! {

/// Whether these exchanges are a search for a participant that ended with `outcome`: the inputs
/// are asked for from the first on, one after the other, up to the first that decides.
pub open spec fn searched(
    exchanges: Seq<Exchange>,
    unlock_a: Seq<u8>,
    unlock_b: Seq<u8>,
    outcome: Result<bool, Error>,
) -> bool {
    &&& 0 < exchanges.len() <= usize::MAX
    &&& forall|k: int|
        0 <= k < exchanges.len() ==> {
            &&& #[trigger] exchanges[k] is LockHash
            &&& exchanges[k]->LockHash_source == Source::Input
            &&& exchanges[k]->LockHash_index == k
        }
    &&& forall|k: int|
        0 <= k < exchanges.len() - 1 ==> input_decision(
            (#[trigger] exchanges[k])->lock_hash,
            unlock_a,
            unlock_b,
        ) is None
    &&& match input_decision(exchanges.last()->lock_hash, unlock_a, unlock_b) {
        Some(decision) => outcome == decision,
        None => exchanges.len() == usize::MAX && outcome == Ok::<bool, Error>(false),
    }
}

/// Whether this exchange is the look at the witness of the input at `index` of the script group,
/// and `coordinate` says whether `decode_witness` read a Coordinate redeemer there.
pub open spec fn witness_read<W: Fn(&[u8]) -> Option<Redeemer>>(
    exchange: Exchange,
    index: int,
    decode_witness: W,
    coordinate: bool,
) -> bool {
    &&& exchange is InputType
    &&& exchange->InputType_source == Source::GroupInput
    &&& exchange->InputType_index == index
    &&& match exchange->input_type {
        Ok(Some(witness)) => exists|bytes: &[u8], redeemer: Option<Redeemer>|
            bytes@ == witness && #[trigger] call_ensures(decode_witness, (bytes,), redeemer)
                && coordinate == (redeemer == Some(Redeemer::Coordinate)),
        _ => !coordinate,
    }
}

/// Whether these exchanges are the check of a channel in the input at `index` of the script
/// group: a search for its participants, and after a search in vain, where the channel names a
/// coordinator, a look at the witness. `decision` is `None` where the transaction is authorized.
pub open spec fn channel_checked<W: Fn(&[u8]) -> Option<Redeemer>>(
    exchanges: Seq<Exchange>,
    index: int,
    channel: Channel,
    decode_witness: W,
    decision: Option<Result<(), Error>>,
) -> bool {
    let unlock_a = channel.party_a_unlock@;
    let unlock_b = channel.party_b_unlock@;
    match decision {
        None => {
            ||| searched(exchanges, unlock_a, unlock_b, Ok(true))
            ||| {
                &&& channel.coordinator_configured
                &&& exchanges.len() > 0
                &&& searched(exchanges.drop_last(), unlock_a, unlock_b, Ok(false))
                &&& witness_read(exchanges.last(), index, decode_witness, true)
            }
        },
        Some(Err(Error::NotParticipant)) => if channel.coordinator_configured {
            &&& exchanges.len() > 0
            &&& searched(exchanges.drop_last(), unlock_a, unlock_b, Ok(false))
            &&& witness_read(exchanges.last(), index, decode_witness, false)
        } else {
            searched(exchanges, unlock_a, unlock_b, Ok(false))
        },
        Some(Err(err)) => searched(exchanges, unlock_a, unlock_b, Err(err)),
        Some(Ok(())) => false,
    }
}

/// Whether these exchanges are the check of the input at `index` of the script group: its type
/// script is asked for, and where it has one, the channel that `decode_constants` read in its
/// args is checked. `decision` is `None` where the next input is to be checked.
pub open spec fn input_checked<C: Fn(&[u8]) -> Channel, W: Fn(&[u8]) -> Option<Redeemer>>(
    exchanges: Seq<Exchange>,
    index: int,
    decode_constants: C,
    decode_witness: W,
    decision: Option<Result<(), Error>>,
) -> bool {
    &&& exchanges.len() > 0
    &&& exchanges[0] is CellType
    &&& exchanges[0]->CellType_source == Source::GroupInput
    &&& exchanges[0]->CellType_index == index
    &&& match exchanges[0]->type_args {
        Ok(Some(args)) => exists|bytes: &[u8], channel: Channel|
            bytes@ == args && #[trigger] call_ensures(decode_constants, (bytes,), channel)
                && channel_checked(exchanges.skip(1), index, channel, decode_witness, decision),
        Ok(None) => exchanges.len() == 1 && decision == Some(
            Err::<(), Error>(Error::PCTSNotFound),
        ),
        Err(SysError::IndexOutOfBound) => exchanges.len() == 1 && decision == Some(
            Ok::<(), Error>(()),
        ),
        Err(err) => exchanges.len() == 1 && decision == Some(Err::<(), Error>(Error::Sys(err))),
    }
}

/// The exchanges between two starts.
pub open spec fn part(exchanges: Seq<Exchange>, starts: Seq<int>, k: int) -> Seq<Exchange> {
    exchanges.subrange(starts[k], starts[k + 1])
}

/// Whether these exchanges check the inputs of the script group one after the other, the check of
/// each beginning at its place in `starts`: all pass but the last, which decides the outcome.
pub open spec fn checked_in_turn<C: Fn(&[u8]) -> Channel, W: Fn(&[u8]) -> Option<Redeemer>>(
    exchanges: Seq<Exchange>,
    starts: Seq<int>,
    decode_constants: C,
    decode_witness: W,
    outcome: Result<(), Error>,
) -> bool {
    let last = starts.len() - 1;
    &&& passed_in_turn(exchanges, starts, decode_constants, decode_witness)
    &&& if last < usize::MAX {
        input_checked(
            exchanges.skip(starts[last]),
            last,
            decode_constants,
            decode_witness,
            Some(outcome),
        )
    } else {
        starts[last] == exchanges.len() && outcome == Ok::<(), Error>(())
    }
}

/// Whether all inputs of the script group but the last in `starts` pass, the check of each
/// beginning at its place in `starts`.
pub open spec fn passed_in_turn<C: Fn(&[u8]) -> Channel, W: Fn(&[u8]) -> Option<Redeemer>>(
    exchanges: Seq<Exchange>,
    starts: Seq<int>,
    decode_constants: C,
    decode_witness: W,
) -> bool {
    &&& 0 < starts.len() <= usize::MAX + 1
    &&& starts[0] == 0
    &&& starts.last() <= exchanges.len()
    &&& forall|j: int, k: int| 0 <= j <= k < starts.len() ==> starts[j] <= starts[k]
    &&& forall|k: int|
        0 <= k < starts.len() - 1 ==> input_checked(
            #[trigger] part(exchanges, starts, k),
            k,
            decode_constants,
            decode_witness,
            None,
        )
}

/// Whether these exchanges are a run of the lock script that ended with `outcome`: it asks for
/// its own args, and where there are none, checks the inputs of the script group.
pub open spec fn ran<C: Fn(&[u8]) -> Channel, W: Fn(&[u8]) -> Option<Redeemer>>(
    exchanges: Seq<Exchange>,
    decode_constants: C,
    decode_witness: W,
    outcome: Result<(), Error>,
) -> bool {
    &&& exchanges.len() > 0
    &&& exchanges[0] is Script
    &&& match args_verdict(exchanges[0]->args) {
        Ok(()) => exists|starts: Seq<int>| #[trigger]
            checked_in_turn(exchanges.skip(1), starts, decode_constants, decode_witness, outcome),
        Err(err) => exchanges.len() == 1 && outcome == Err::<(), Error>(err),
    }
}

/// Whether the script group was seen to its end: the last question was for the type script of a
/// cell of the group, the answer that there is none at its index, and all cells before it handed
/// out theirs; or as many cells did as can be counted.
pub open spec fn saw_whole_group(exchanges: Seq<Exchange>) -> bool {
    ||| {
        &&& exchanges.len() > 0
        &&& exchanges.last() is CellType
        &&& exchanges.last()->CellType_source == Source::GroupInput
        &&& exchanges.last()->type_args == Err::<Option<Seq<u8>>, SysError>(
            SysError::IndexOutOfBound,
        )
        &&& forall|i: usize|
            i < exchanges.last()->CellType_index ==> #[trigger] asked_for_type(exchanges, i)
    }
    ||| forall|i: usize| i < usize::MAX ==> #[trigger] asked_for_type(exchanges, i)
}

/// Whether the type script of the cell at `index` of the script group was asked for, and handed
/// out.
pub open spec fn asked_for_type(exchanges: Seq<Exchange>, index: usize) -> bool {
    exists|k: int|
        0 <= k < exchanges.len() && #[trigger] exchanges[k] is CellType
            && exchanges[k]->CellType_source == Source::GroupInput && exchanges[k]->CellType_index
            == index && exchanges[k]->type_args matches Ok(Some(_))
}

/// Whether `decode_constants` read a channel in the args of every type script that the VM handed
/// out.
pub open spec fn read_every_channel<C: Fn(&[u8]) -> Channel>(
    exchanges: Seq<Exchange>,
    decode_constants: C,
) -> bool {
    forall|k: int, args: Seq<u8>|
        0 <= k < exchanges.len() && (#[trigger] exchanges[k]) is CellType
            && exchanges[k]->type_args == Ok::<Option<Seq<u8>>, SysError>(Some(args))
            ==> #[trigger] read_channel(decode_constants, args)
}

/// Whether `decode_constants` read a channel in these args.
pub open spec fn read_channel<C: Fn(&[u8]) -> Channel>(decode_constants: C, args: Seq<u8>) -> bool {
    exists|bytes: &[u8], channel: Channel|
        bytes@ == args && #[trigger] call_ensures(decode_constants, (bytes,), channel)
}

} // verus!
