//! The lock script.
use vstd::prelude::*;

use crate::channel::{Channel, Redeemer};
use crate::error::{Error, SysError};
use crate::laws::{
    law_run_follows_rule, law_run_reads_every_channel, law_run_sees_whole_group,
    law_search_follows_rule, lemma_answers_part,
};
use crate::rule::{
    args_verdict, coordinates, input_decision, participates, verdict, Codec, Transaction,
};
use crate::run::{
    channel_checked, checked_in_turn, input_checked, part, passed_in_turn, ran,
    read_every_channel, saw_whole_group, searched, witness_read,
};
use crate::vm::{bytes_of, bytes_of_opt, hash_of, Exchange, Source, Vm};

verus! {

/// Whether two hashes are the same.
fn same_hash(left: &[u8; 32], right: &[u8; 32]) -> (same: bool)
    ensures
        same == (left@ == right@),
{
    let mut i: usize = 0;
    while i < 32
        invariant
            i <= 32,
            forall|k: int| 0 <= k < i ==> left@[k] == right@[k],
        decreases 32 - i,
    {
        if left[i] != right[i] {
            return false;
        }
        i += 1;
    }
    assert(left@ =~= right@);
    true
}

/// What one answer about the lock hash of an input decides in the search for a participant;
/// `None` where the next input has to be looked at.
pub fn decide_input(
    reply: Result<[u8; 32], SysError>,
    unlock_script_hash_a: &[u8; 32],
    unlock_script_hash_b: &[u8; 32],
) -> (decision: Option<Result<bool, Error>>)
    ensures
        decision == input_decision(hash_of(reply), unlock_script_hash_a@, unlock_script_hash_b@),
{
    match reply {
        Ok(lock_hash) => {
            if same_hash(&lock_hash, unlock_script_hash_a) || same_hash(
                &lock_hash,
                unlock_script_hash_b,
            ) {
                Some(Ok(true))
            } else {
                None
            }
        },
        Err(SysError::IndexOutOfBound) => Some(Ok(false)),
        Err(err) => Some(Err(Error::Sys(err))),
    }
}

/// Whether the transaction is executed by a participant of the channel: looks for an input cell
/// whose lock script hash is one of the two unlock script hashes.
pub fn verify_is_participant(
    vm: &mut Vm,
    unlock_script_hash_a: &[u8; 32],
    unlock_script_hash_b: &[u8; 32],
) -> (outcome: Result<bool, Error>)
    ensures
        old(vm)@.is_prefix_of(final(vm)@),
        searched(
            final(vm)@.skip(old(vm)@.len() as int),
            unlock_script_hash_a@,
            unlock_script_hash_b@,
            outcome,
        ),
        forall|tx: Transaction| #[trigger]
            tx.answers(final(vm)@) ==> outcome == participates(
                tx,
                unlock_script_hash_a@,
                unlock_script_hash_b@,
            ),
{
    let ghost before = vm@;
    let mut i: usize = 0;
    let mut outcome: Result<bool, Error> = Ok(false);
    while i < usize::MAX
        invariant_except_break
            vm@.len() == before.len() + i,
            outcome == Ok::<bool, Error>(false),
            forall|k: int|
                before.len() <= k < vm@.len() ==> {
                    &&& #[trigger] vm@[k] is LockHash
                    &&& vm@[k]->LockHash_source == Source::Input
                    &&& vm@[k]->LockHash_index == k - before.len()
                    &&& input_decision(
                        vm@[k]->lock_hash,
                        unlock_script_hash_a@,
                        unlock_script_hash_b@,
                    ) is None
                },
        invariant
            before == old(vm)@,
            before.is_prefix_of(vm@),
        ensures
            searched(
                vm@.skip(before.len() as int),
                unlock_script_hash_a@,
                unlock_script_hash_b@,
                outcome,
            ),
        decreases usize::MAX - i,
    {
        let reply = vm.load_cell_lock_hash(i, Source::Input);
        if let Some(decision) = decide_input(reply, unlock_script_hash_a, unlock_script_hash_b) {
            outcome = decision;
            break ;
        }
        i += 1;
    }
    proof {
        let asked = vm@.skip(before.len() as int);
        assert forall|tx: Transaction| #[trigger] tx.answers(vm@) implies outcome == participates(
            tx,
            unlock_script_hash_a@,
            unlock_script_hash_b@,
        ) by {
            lemma_answers_part(tx, vm@, before.len() as int, vm@.len() as int);
            law_search_follows_rule(
                asked,
                unlock_script_hash_a@,
                unlock_script_hash_b@,
                outcome,
                tx,
            );
        }
    }
    outcome
}

/// Whether an answer about the witness of a channel input is a Coordinate redeemer. A missing
/// witness, a witness without the field and bytes that are no redeemer are not.
pub fn decide_witness<W: Fn(&[u8]) -> Option<Redeemer>>(
    reply: Result<Option<Vec<u8>>, SysError>,
    decode_witness: &W,
) -> (coordinate: bool)
    requires
        forall|bytes: &[u8]| call_requires(decode_witness, (bytes,)),
    ensures
        match reply {
            Ok(Some(witness)) => exists|bytes: &[u8], redeemer: Option<Redeemer>|
                bytes@ == witness@ && #[trigger] call_ensures(decode_witness, (bytes,), redeemer)
                    && coordinate == (redeemer == Some(Redeemer::Coordinate)),
            _ => !coordinate,
        },
        forall|codec: Codec| #[trigger]
            codec.reads_redeemers(decode_witness) ==> coordinate == coordinates(
                codec,
                bytes_of_opt(reply),
            ),
{
    match reply {
        Ok(Some(witness)) => match decode_witness(witness.as_slice()) {
            Some(Redeemer::Coordinate) => true,
            _ => false,
        },
        _ => false,
    }
}

/// Whether the input at `group_input_index` of the script group carries a Coordinate redeemer in
/// its witness. A missing or malformed witness carries none, so that the caller falls back on a
/// participant.
pub fn witness_is_coordinate<W: Fn(&[u8]) -> Option<Redeemer>>(
    vm: &mut Vm,
    group_input_index: usize,
    decode_witness: &W,
) -> (coordinate: bool)
    requires
        forall|bytes: &[u8]| call_requires(decode_witness, (bytes,)),
    ensures
        final(vm)@ == old(vm)@.push(final(vm)@.last()),
        witness_read(final(vm)@.last(), group_input_index as int, decode_witness, coordinate),
        forall|tx: Transaction, codec: Codec|
            #![trigger tx.answers(final(vm)@), codec.reads_redeemers(decode_witness)]
            tx.answers(final(vm)@) && codec.reads_redeemers(decode_witness) ==> coordinate
                == coordinates(codec, (tx.group_witnesses())(group_input_index as int)),
{
    let ghost before = vm@;
    let reply = vm.load_witness_input_type(group_input_index, Source::GroupInput);
    assert(vm@[before.len() as int] == vm@.last());
    decide_witness(reply, decode_witness)
}

/// Whether the running lock script may go on, by the answer about its args: it takes none.
pub fn decide_args(reply: Result<Vec<u8>, SysError>) -> (outcome: Result<(), Error>)
    ensures
        outcome == args_verdict(bytes_of(reply)),
{
    match reply {
        Ok(args) => {
            if args.len() == 0 {
                Ok(())
            } else {
                Err(Error::PCLSWithArgs)
            }
        },
        Err(err) => Err(Error::Sys(err)),
    }
}

/// Where the constants of the channel are, by the answer about the type script of an input of
/// the script group; `None` at the end of the group.
pub fn locate_constants(reply: Result<Option<Vec<u8>>, SysError>) -> (constants: Result<
    Option<Vec<u8>>,
    Error,
>)
    ensures
        constants == match reply {
            Ok(Some(args)) => Ok(Some(args)),
            Ok(None) => Err(Error::PCTSNotFound),
            Err(SysError::IndexOutOfBound) => Ok(None),
            Err(err) => Err(Error::Sys(err)),
        },
{
    match reply {
        Ok(Some(args)) => Ok(Some(args)),
        Ok(None) => Err(Error::PCTSNotFound),
        Err(SysError::IndexOutOfBound) => Ok(None),
        Err(err) => Err(Error::Sys(err)),
    }
}

/// Checks the channel in the input at `index` of the script group: looks for a participant, and
/// without one, where the channel names a coordinator, for a Coordinate redeemer. `None` where the
/// transaction may spend it.
fn check_channel<W: Fn(&[u8]) -> Option<Redeemer>>(
    vm: &mut Vm,
    index: usize,
    channel: &Channel,
    decode_witness: &W,
) -> (decision: Option<Result<(), Error>>)
    requires
        forall|bytes: &[u8]| call_requires(decode_witness, (bytes,)),
    ensures
        old(vm)@.is_prefix_of(final(vm)@),
        channel_checked(
            final(vm)@.skip(old(vm)@.len() as int),
            index as int,
            *channel,
            decode_witness,
            decision,
        ),
{
    let ghost before = vm@;
    match verify_is_participant(vm, &channel.party_a_unlock, &channel.party_b_unlock) {
        Ok(true) => None,
        Ok(false) => {
            if !channel.coordinator_configured {
                return Some(Err(Error::NotParticipant));
            }
            let ghost asked = vm@.skip(before.len() as int);
            let coordinate = witness_is_coordinate(vm, index, decode_witness);
            assert(vm@.skip(before.len() as int).drop_last() =~= asked);
            if coordinate {
                None
            } else {
                Some(Err(Error::NotParticipant))
            }
        },
        Err(err) => Some(Err(err)),
    }
}

/// Checks the input at `index` of the script group: it holds a channel that the transaction may
/// spend. `None` where it does, and the next input is to be checked.
fn check_group_input<C: Fn(&[u8]) -> Channel, W: Fn(&[u8]) -> Option<Redeemer>>(
    vm: &mut Vm,
    index: usize,
    decode_constants: &C,
    decode_witness: &W,
) -> (decision: Option<Result<(), Error>>)
    requires
        forall|args: &[u8]| call_requires(decode_constants, (args,)),
        forall|bytes: &[u8]| call_requires(decode_witness, (bytes,)),
    ensures
        old(vm)@.is_prefix_of(final(vm)@),
        input_checked(
            final(vm)@.skip(old(vm)@.len() as int),
            index as int,
            decode_constants,
            decode_witness,
            decision,
        ),
{
    let ghost before = vm@;
    let reply = vm.load_cell_type_args(index, Source::GroupInput);
    let ghost located = vm@;
    let args = match locate_constants(reply) {
        Ok(Some(args)) => args,
        Ok(None) => {
            return Some(Ok(()));
        },
        Err(err) => {
            return Some(Err(err));
        },
    };
    let channel = decode_constants(args.as_slice());
    let decision = check_channel(vm, index, &channel, decode_witness);
    proof {
        vm@.lemma_prefix_index_eq(located);
        assert(before =~= vm@.subrange(0, before.len() as int));
        assert(vm@.skip(before.len() as int).skip(1) =~= vm@.skip(located.len() as int));
    }
    decision
}

/// Inputs that passed stay passed when more is asked, and one more that passes joins them.
proof fn lemma_passed_next<C: Fn(&[u8]) -> Channel, W: Fn(&[u8]) -> Option<Redeemer>>(
    earlier: Seq<Exchange>,
    checks: Seq<Exchange>,
    starts: Seq<int>,
    decode_constants: C,
    decode_witness: W,
)
    requires
        passed_in_turn(earlier, starts, decode_constants, decode_witness),
        earlier.is_prefix_of(checks),
    ensures
        passed_in_turn(checks, starts, decode_constants, decode_witness),
        starts.len() <= usize::MAX && input_checked(
            checks.skip(starts.last()),
            starts.len() - 1,
            decode_constants,
            decode_witness,
            None,
        ) ==> passed_in_turn(
            checks,
            starts.push(checks.len() as int),
            decode_constants,
            decode_witness,
        ),
{
    assert(earlier.len() <= checks.len());
    assert forall|k: int| 0 <= k < starts.len() - 1 implies #[trigger] part(checks, starts, k)
        == part(earlier, starts, k) by {
        checks.lemma_prefix_index_eq(earlier);
        assert(part(checks, starts, k) =~= part(earlier, starts, k));
    }
    let more = starts.push(checks.len() as int);
    assert forall|k: int| 0 <= k < starts.len() - 1 implies #[trigger] part(checks, more, k)
        == part(checks, starts, k) by {}
    assert(part(checks, more, starts.len() - 1) == checks.skip(starts.last()));
}

/// What holds of a run, from what it asked.
proof fn lemma_run<C: Fn(&[u8]) -> Channel, W: Fn(&[u8]) -> Option<Redeemer>>(
    before: Seq<Exchange>,
    transcript: Seq<Exchange>,
    decode_constants: C,
    decode_witness: W,
    outcome: Result<(), Error>,
)
    requires
        before.is_prefix_of(transcript),
        ran(transcript.skip(before.len() as int), decode_constants, decode_witness, outcome),
    ensures
        outcome is Ok ==> saw_whole_group(transcript.skip(before.len() as int)),
        read_every_channel(transcript.skip(before.len() as int), decode_constants),
        forall|tx: Transaction, codec: Codec|
            #![trigger tx.answers(transcript), codec.reads_channels(decode_constants)]
            tx.answers(transcript) && codec.reads_channels(decode_constants)
                && codec.reads_redeemers(decode_witness) ==> outcome == verdict(tx, codec),
{
    let asked = transcript.skip(before.len() as int);
    if outcome is Ok {
        law_run_sees_whole_group(asked, decode_constants, decode_witness);
    }
    law_run_reads_every_channel(asked, decode_constants, decode_witness, outcome);
    assert forall|tx: Transaction, codec: Codec|
        #![trigger tx.answers(transcript), codec.reads_channels(decode_constants)]
        tx.answers(transcript) && codec.reads_channels(decode_constants) && codec.reads_redeemers(
            decode_witness,
        ) implies outcome == verdict(tx, codec) by {
        lemma_answers_part(tx, transcript, before.len() as int, transcript.len() as int);
        law_run_follows_rule(asked, decode_constants, decode_witness, outcome, tx, codec);
    }
}

/// Checks the transaction: the lock script has no args, and each input of the script group holds
/// a channel that a participant, or its coordinator with a Coordinate redeemer, may spend.
///
/// `decode_constants` reads the args of a channel type script, `decode_witness` the bytes of a
/// channel witness. Args that hold no channel constants are for `decode_constants` to abort on:
/// no channel stands for them, and they are never accepted.
pub fn main<C: Fn(&[u8]) -> Channel, W: Fn(&[u8]) -> Option<Redeemer>>(
    vm: &mut Vm,
    decode_constants: &C,
    decode_witness: &W,
) -> (outcome: Result<(), Error>)
    requires
        forall|args: &[u8]| call_requires(decode_constants, (args,)),
        forall|bytes: &[u8]| call_requires(decode_witness, (bytes,)),
    ensures
        old(vm)@.is_prefix_of(final(vm)@),
        ran(final(vm)@.skip(old(vm)@.len() as int), decode_constants, decode_witness, outcome),
        outcome is Ok ==> saw_whole_group(final(vm)@.skip(old(vm)@.len() as int)),
        read_every_channel(final(vm)@.skip(old(vm)@.len() as int), decode_constants),
        forall|tx: Transaction, codec: Codec|
            #![trigger tx.answers(final(vm)@), codec.reads_channels(decode_constants)]
            tx.answers(final(vm)@) && codec.reads_channels(decode_constants)
                && codec.reads_redeemers(decode_witness) ==> outcome == verdict(tx, codec),
{
    let ghost before = vm@;
    let reply = vm.load_script_args();
    let ghost opened = vm@;
    if let Err(err) = decide_args(reply) {
        proof {
            lemma_run(before, vm@, decode_constants, decode_witness, Err(err));
        }
        return Err(err);
    }
    let ghost mut starts: Seq<int> = seq![0];
    let mut outcome: Result<(), Error> = Ok(());
    let mut i: usize = 0;
    while i < usize::MAX
        invariant_except_break
            starts.len() == i + 1,
            starts.last() == vm@.len() - opened.len(),
            outcome == Ok::<(), Error>(()),
        invariant
            forall|args: &[u8]| call_requires(decode_constants, (args,)),
            forall|bytes: &[u8]| call_requires(decode_witness, (bytes,)),
            opened.is_prefix_of(vm@),
            passed_in_turn(
                vm@.skip(opened.len() as int),
                starts,
                decode_constants,
                decode_witness,
            ),
        ensures
            checked_in_turn(
                vm@.skip(opened.len() as int),
                starts,
                decode_constants,
                decode_witness,
                outcome,
            ),
        decreases usize::MAX - i,
    {
        let ghost asked = vm@;
        let decision = check_group_input(vm, i, decode_constants, decode_witness);
        proof {
            let earlier = asked.skip(opened.len() as int);
            let checks = vm@.skip(opened.len() as int);
            vm@.lemma_prefix_index_eq(asked);
            asked.lemma_prefix_index_eq(opened);
            assert(opened =~= vm@.subrange(0, opened.len() as int));
            assert(earlier =~= checks.subrange(0, earlier.len() as int));
            assert(checks.skip(starts.last()) =~= vm@.skip(asked.len() as int));
            lemma_passed_next(earlier, checks, starts, decode_constants, decode_witness);
        }
        if let Some(ending) = decision {
            outcome = ending;
            break ;
        }
        proof {
            starts = starts.push(vm@.len() - opened.len());
        }
        i += 1;
    }
    proof {
        let asked = vm@.skip(before.len() as int);
        vm@.lemma_prefix_index_eq(opened);
        assert(before =~= vm@.subrange(0, before.len() as int));
        assert(asked.skip(1) =~= vm@.skip(opened.len() as int));
        assert(asked[0] == opened.last());
        lemma_run(before, vm@, decode_constants, decode_witness, outcome);
    }
    outcome
}

/// The exit code of the script: `0` where it accepts, what `error_code` says where it refuses.
pub fn exit_code<E: Fn(Error) -> i8>(outcome: Result<(), Error>, error_code: &E) -> (code: i8)
    requires
        forall|err: Error| call_requires(error_code, (err,)),
    ensures
        match outcome {
            Ok(()) => code == 0,
            Err(err) => call_ensures(error_code, (err,), code),
        },
{
    match outcome {
        Ok(()) => 0,
        Err(err) => error_code(err),
    }
}

/// Runs the script: the exit code is `0` where the transaction is accepted, and what `error_code`
/// says of the error where it is refused.
pub fn program_entry<
    C: Fn(&[u8]) -> Channel,
    W: Fn(&[u8]) -> Option<Redeemer>,
    E: Fn(Error) -> i8,
>(vm: &mut Vm, decode_constants: &C, decode_witness: &W, error_code: &E) -> (code: i8)
    requires
        forall|args: &[u8]| call_requires(decode_constants, (args,)),
        forall|bytes: &[u8]| call_requires(decode_witness, (bytes,)),
        forall|err: Error| call_requires(error_code, (err,)),
    ensures
        old(vm)@.is_prefix_of(final(vm)@),
        exists|outcome: Result<(), Error>| #[trigger]
            ran(
                final(vm)@.skip(old(vm)@.len() as int),
                decode_constants,
                decode_witness,
                outcome,
            ) && match outcome {
                Ok(()) => code == 0 && saw_whole_group(final(vm)@.skip(old(vm)@.len() as int)),
                Err(err) => call_ensures(error_code, (err,), code),
            },
        read_every_channel(final(vm)@.skip(old(vm)@.len() as int), decode_constants),
        forall|tx: Transaction, codec: Codec|
            #![trigger tx.answers(final(vm)@), codec.reads_channels(decode_constants)]
            tx.answers(final(vm)@) && codec.reads_channels(decode_constants)
                && codec.reads_redeemers(decode_witness) ==> match verdict(tx, codec) {
                Ok(()) => code == 0,
                Err(err) => call_ensures(error_code, (err,), code),
            },
{
    exit_code(main(vm, decode_constants, decode_witness), error_code)
}

} // verus!
