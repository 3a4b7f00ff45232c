//! What holds of runs of the lock script and of the rule.
use vstd::prelude::*;

use crate::channel::{Channel, Redeemer};
use crate::error::{Error, SysError};
use crate::rule::{
    args_verdict, authorizes, first_decision, group_decision, group_decisions,
    input_decisions, participates, verdict, Codec, Transaction,
};
use crate::run::{
    asked_for_type, channel_checked, checked_in_turn, input_checked, part, passed_in_turn, ran,
    read_channel, read_every_channel, saw_whole_group, searched, witness_read,
};
use crate::vm::{bytes_of, bytes_of_opt, hash_of, Exchange, Source};

verus! {

/// Whether the answers about a list of cells are exactly these items: each at its index, and after
/// the last the end.
pub open spec fn lists<T>(
    answers: spec_fn(Source, int) -> Result<T, SysError>,
    source: Source,
    items: Seq<T>,
) -> bool {
    &&& items.len() < usize::MAX
    &&& forall|i: int|
        0 <= i < items.len() ==> #[trigger] answers(source, i) == Ok::<T, SysError>(items[i])
    &&& answers(source, items.len() as int) == Err::<T, SysError>(SysError::IndexOutOfBound)
}

/// Whether a lock hash is the unlock script hash of one of the two parties.
pub open spec fn unlocks(hash: Seq<u8>, unlock_a: Seq<u8>, unlock_b: Seq<u8>) -> bool {
    hash == unlock_a || hash == unlock_b
}

/// Where nothing is decided before `at`, the first decision is the first from `at` on.
proof fn lemma_undecided_before<R>(decisions: spec_fn(int) -> Option<R>, from: int, at: int)
    requires
        0 <= from <= at <= usize::MAX,
        forall|k: int| from <= k < at ==> #[trigger] decisions(k) is None,
    ensures
        first_decision(decisions, from) == first_decision(decisions, at),
    decreases at - from,
{
    if from < at {
        assert(decisions(from) is None);
        lemma_undecided_before(decisions, from + 1, at);
    }
}

/// A first decision was made somewhere, with nothing decided before.
proof fn lemma_decided_at<R>(decisions: spec_fn(int) -> Option<R>, from: int) -> (at: int)
    requires
        0 <= from <= usize::MAX,
    ensures
        from <= at <= usize::MAX,
        forall|k: int| from <= k < at ==> #[trigger] decisions(k) is None,
        at < usize::MAX ==> decisions(at) is Some && first_decision(decisions, from) == decisions(
            at,
        ),
        at == usize::MAX ==> first_decision(decisions, from) is None,
    decreases usize::MAX - from,
{
    if from >= usize::MAX || decisions(from) is Some {
        from
    } else {
        lemma_decided_at(decisions, from + 1)
    }
}

/// The search for a participant, by the first input that the VM does not hand out: a party's
/// lock hash before it is enough, whatever comes later; without one, the end of the inputs means
/// that there is no participant, and any other refusal is the error.
pub proof fn law_search(
    tx: Transaction,
    unlock_a: Seq<u8>,
    unlock_b: Seq<u8>,
    inputs: Seq<Seq<u8>>,
    refusal: SysError,
)
    requires
        inputs.len() < usize::MAX,
        forall|i: int|
            0 <= i < inputs.len() ==> #[trigger] (tx.lock_hashes)(Source::Input, i) == Ok::<
                Seq<u8>,
                SysError,
            >(inputs[i]),
        (tx.lock_hashes)(Source::Input, inputs.len() as int) == Err::<Seq<u8>, SysError>(refusal),
    ensures
        participates(tx, unlock_a, unlock_b) == if exists|i: int|
            0 <= i < inputs.len() && unlocks(#[trigger] inputs[i], unlock_a, unlock_b) {
            Ok::<bool, Error>(true)
        } else if refusal == SysError::IndexOutOfBound {
            Ok(false)
        } else {
            Err(Error::Sys(refusal))
        },
{
    let decisions = input_decisions(tx, unlock_a, unlock_b);
    let at = lemma_decided_at(decisions, 0);
    let n = inputs.len() as int;
    assert(decisions(n) is Some);
    if at < n {
        assert((tx.lock_hashes)(Source::Input, at) == Ok::<Seq<u8>, SysError>(inputs[at]));
        assert(unlocks(inputs[at], unlock_a, unlock_b));
    } else {
        assert(at == n);
        assert forall|i: int| 0 <= i < inputs.len() implies !unlocks(
            #[trigger] inputs[i],
            unlock_a,
            unlock_b,
        ) by {
            assert(decisions(i) is None);
            assert((tx.lock_hashes)(Source::Input, i) == Ok::<Seq<u8>, SysError>(inputs[i]));
        }
    }
}

/// The first input that is not a stranger's cell decides the search: a party's cell finds a
/// participant, the end of the inputs finds none, any other refusal is the error.
pub proof fn law_search_decided(tx: Transaction, unlock_a: Seq<u8>, unlock_b: Seq<u8>, at: int)
    requires
        0 <= at < usize::MAX,
        forall|i: int|
            0 <= i < at ==> (#[trigger] (tx.lock_hashes)(Source::Input, i) matches Ok(hash) && hash
                != unlock_a && hash != unlock_b),
        (tx.lock_hashes)(Source::Input, at) matches Ok(hash) ==> hash == unlock_a || hash
            == unlock_b,
    ensures
        participates(tx, unlock_a, unlock_b) == match (tx.lock_hashes)(Source::Input, at) {
            Ok(_) => Ok::<bool, Error>(true),
            Err(SysError::IndexOutOfBound) => Ok(false),
            Err(refusal) => Err(Error::Sys(refusal)),
        },
{
    let decisions = input_decisions(tx, unlock_a, unlock_b);
    assert forall|i: int| 0 <= i < at implies #[trigger] decisions(i) is None by {
        assert((tx.lock_hashes)(Source::Input, i) is Ok);
    }
    lemma_undecided_before(decisions, 0, at);
    assert(decisions(at) is Some);
}

/// Where all inputs that can be counted are strangers' cells, there is no participant.
pub proof fn law_search_undecided(tx: Transaction, unlock_a: Seq<u8>, unlock_b: Seq<u8>)
    requires
        forall|i: int|
            0 <= i < usize::MAX ==> (#[trigger] (tx.lock_hashes)(Source::Input, i) matches Ok(hash)
                && hash != unlock_a && hash != unlock_b),
    ensures
        participates(tx, unlock_a, unlock_b) == Ok::<bool, Error>(false),
{
    let decisions = input_decisions(tx, unlock_a, unlock_b);
    assert forall|i: int| 0 <= i < usize::MAX implies #[trigger] decisions(i) is None by {
        assert((tx.lock_hashes)(Source::Input, i) is Ok);
    }
    lemma_undecided_before(decisions, 0, usize::MAX as int);
}

/// A transaction is executed by a participant exactly if at least one of its input cells is
/// locked by the unlock script of one of the two parties.
pub proof fn law_participant(
    tx: Transaction,
    unlock_a: Seq<u8>,
    unlock_b: Seq<u8>,
    inputs: Seq<Seq<u8>>,
)
    requires
        lists(tx.lock_hashes, Source::Input, inputs),
    ensures
        participates(tx, unlock_a, unlock_b) == Ok::<bool, Error>(
            exists|i: int|
                0 <= i < inputs.len() && unlocks(#[trigger] inputs[i], unlock_a, unlock_b),
        ),
{
    law_search(tx, unlock_a, unlock_b, inputs, SysError::IndexOutOfBound);
}

/// The two parties of a channel have the same rights.
pub proof fn law_parties_interchangeable(tx: Transaction, unlock_a: Seq<u8>, unlock_b: Seq<u8>)
    ensures
        participates(tx, unlock_a, unlock_b) == participates(tx, unlock_b, unlock_a),
{
    assert(input_decisions(tx, unlock_a, unlock_b) =~= input_decisions(tx, unlock_b, unlock_a));
}

/// A participant stays one when inputs are added or put in another order.
pub proof fn law_more_inputs(
    tx: Transaction,
    more: Transaction,
    unlock_a: Seq<u8>,
    unlock_b: Seq<u8>,
    inputs: Seq<Seq<u8>>,
    more_inputs: Seq<Seq<u8>>,
)
    requires
        lists(tx.lock_hashes, Source::Input, inputs),
        lists(more.lock_hashes, Source::Input, more_inputs),
        forall|hash: Seq<u8>| inputs.contains(hash) ==> #[trigger] more_inputs.contains(hash),
        participates(tx, unlock_a, unlock_b) == Ok::<bool, Error>(true),
    ensures
        participates(more, unlock_a, unlock_b) == Ok::<bool, Error>(true),
{
    law_participant(tx, unlock_a, unlock_b, inputs);
    law_participant(more, unlock_a, unlock_b, more_inputs);
    let i = choose|i: int|
        0 <= i < inputs.len() && unlocks(#[trigger] inputs[i], unlock_a, unlock_b);
    assert(inputs.contains(inputs[i]));
    assert(more_inputs.contains(inputs[i]));
    let j = choose|j: int| 0 <= j < more_inputs.len() && more_inputs[j] == inputs[i];
    assert(unlocks(more_inputs[j], unlock_a, unlock_b));
}

/// The search asks for the inputs of the transaction from the first on, none left out and none
/// asked for twice, and goes on past strangers' cells only. What it asked for last decides.
pub proof fn law_search_asks_in_order(
    exchanges: Seq<Exchange>,
    unlock_a: Seq<u8>,
    unlock_b: Seq<u8>,
    outcome: Result<bool, Error>,
)
    requires
        searched(exchanges, unlock_a, unlock_b, outcome),
    ensures
        0 < exchanges.len() <= usize::MAX,
        forall|k: int|
            0 <= k < exchanges.len() ==> (#[trigger] exchanges[k] matches Exchange::LockHash {
                source,
                index,
                ..
            } && source == Source::Input && index == k),
        forall|k: int|
            0 <= k < exchanges.len() - 1 ==> (#[trigger] exchanges[k] matches Exchange::LockHash {
                lock_hash: Ok(hash),
                ..
            } && hash != unlock_a && hash != unlock_b),
        match exchanges.last()->lock_hash {
            Ok(hash) => if hash == unlock_a || hash == unlock_b {
                outcome == Ok::<bool, Error>(true)
            } else {
                outcome == Ok::<bool, Error>(false) && exchanges.len() == usize::MAX
            },
            Err(SysError::IndexOutOfBound) => outcome == Ok::<bool, Error>(false),
            Err(refusal) => outcome == Err::<bool, Error>(Error::Sys(refusal)),
        },
{
    assert(exchanges[exchanges.len() - 1] is LockHash);
}

/// The search gives what the rule says of any transaction that the VM's answers are about.
pub proof fn law_search_follows_rule(
    exchanges: Seq<Exchange>,
    unlock_a: Seq<u8>,
    unlock_b: Seq<u8>,
    outcome: Result<bool, Error>,
    tx: Transaction,
)
    requires
        searched(exchanges, unlock_a, unlock_b, outcome),
        forall|k: int|
            0 <= k < exchanges.len() ==> (#[trigger] exchanges[k] matches Exchange::LockHash {
                source,
                index,
                lock_hash,
            } ==> lock_hash == (tx.lock_hashes)(source, index as int)),
    ensures
        outcome == participates(tx, unlock_a, unlock_b),
{
    let decisions = input_decisions(tx, unlock_a, unlock_b);
    let last = exchanges.len() - 1;
    assert(exchanges[last] is LockHash);
    assert forall|k: int| 0 <= k < last implies #[trigger] decisions(k) is None by {
        assert(exchanges[k] is LockHash);
    }
    assert(last == exchanges[last]->LockHash_index);
    lemma_undecided_before(decisions, 0, last);
    if decisions(last) is None {
        lemma_undecided_before(decisions, 0, usize::MAX as int);
    }
}

/// Whether the witness of the input at `index` of the script group is a Coordinate redeemer.
pub open spec fn witnessed(tx: Transaction, codec: Codec, index: int) -> bool {
    (tx.input_types)(Source::GroupInput, index) matches Ok(Some(bytes)) && (codec.redeemer)(bytes)
        == Some(Redeemer::Coordinate)
}

/// What the input at `index` of the script group asks of the transaction is met: it holds a
/// channel, and a participant executes the transaction or, in vain searched for, a coordinator
/// that the channel names.
pub open spec fn passes(tx: Transaction, codec: Codec, index: int) -> bool {
    (tx.type_args)(Source::GroupInput, index) matches Ok(Some(args)) && {
        let channel = (codec.channel)(args);
        match participates(tx, channel.party_a_unlock@, channel.party_b_unlock@) {
            Ok(participant) => participant || (channel.coordinator_configured && witnessed(
                tx,
                codec,
                index,
            )),
            Err(_) => false,
        }
    }
}

/// The script group is checked up to the input at `index`: all before it pass.
pub open spec fn reaches(tx: Transaction, codec: Codec, index: int) -> bool {
    &&& tx.script_args matches Ok(args)
    &&& args.len() == 0
    &&& 0 <= index < usize::MAX
    &&& forall|k: int| 0 <= k < index ==> #[trigger] passes(tx, codec, k)
}

/// The lock script accepts exactly if it has no args and the transaction is authorized for each
/// channel in the script group: there is no other way in, and none of the channels is exempt.
pub proof fn law_acceptance(tx: Transaction, codec: Codec, cells: Seq<Option<Seq<u8>>>)
    requires
        lists(tx.type_args, Source::GroupInput, cells),
    ensures
        verdict(tx, codec) is Ok <==> {
            &&& tx.script_args == Ok::<Seq<u8>, SysError>(Seq::empty())
            &&& forall|i: int| 0 <= i < cells.len() ==> #[trigger] passes(tx, codec, i)
        },
{
    let decisions = group_decisions(tx, codec);
    let at = lemma_decided_at(decisions, 0);
    let n = cells.len() as int;
    assert(decisions(n) is Some);
    assert(tx.script_args matches Ok(args) && args.len() == 0 ==> tx.script_args == Ok::<
        Seq<u8>,
        SysError,
    >(Seq::empty())) by {
        if let Ok(args) = tx.script_args {
            if args.len() == 0 {
                assert(args =~= Seq::empty());
            }
        }
    }
    assert forall|i: int| 0 <= i < at implies #[trigger] passes(tx, codec, i) by {
        assert(decisions(i) is None);
    }
    if at < n {
        assert((tx.type_args)(Source::GroupInput, at) == Ok::<Option<Seq<u8>>, SysError>(
            cells[at],
        ));
        assert(decisions(at) is Some);
        assert(!passes(tx, codec, at));
    }
}

/// The lock script accepts a transaction exactly if it has no args and each cell in the script
/// group has a type script whose channel the transaction may spend: an input cell is locked by
/// one of the two parties, or the channel names a coordinator and the witness of this very input
/// is a Coordinate redeemer.
pub proof fn law_who_may_spend(
    tx: Transaction,
    codec: Codec,
    cells: Seq<Option<Seq<u8>>>,
    inputs: Seq<Seq<u8>>,
)
    requires
        lists(tx.type_args, Source::GroupInput, cells),
        lists(tx.lock_hashes, Source::Input, inputs),
    ensures
        verdict(tx, codec) is Ok <==> {
            &&& tx.script_args == Ok::<Seq<u8>, SysError>(Seq::empty())
            &&& forall|i: int|
                0 <= i < cells.len() ==> {
                    &&& #[trigger] cells[i] is Some
                    &&& may_spend(tx, codec, (codec.channel)(cells[i]->0), i, inputs)
                }
        },
{
    law_acceptance(tx, codec, cells);
    assert forall|i: int| 0 <= i < cells.len() implies #[trigger] passes(tx, codec, i) == (
    cells[i] is Some && may_spend(tx, codec, (codec.channel)(cells[i]->0), i, inputs)) by {
        assert((tx.type_args)(Source::GroupInput, i) == Ok::<Option<Seq<u8>>, SysError>(cells[i]));
        if let Some(args) = cells[i] {
            let channel = (codec.channel)(args);
            law_participant(tx, channel.party_a_unlock@, channel.party_b_unlock@, inputs);
        }
    }
    if forall|i: int|
        0 <= i < cells.len() ==> {
            &&& #[trigger] cells[i] is Some
            &&& may_spend(tx, codec, (codec.channel)(cells[i]->0), i, inputs)
        } {
        assert forall|i: int| 0 <= i < cells.len() implies #[trigger] passes(tx, codec, i) by {
            assert(cells[i] is Some);
        }
    }
    if forall|i: int| 0 <= i < cells.len() ==> #[trigger] passes(tx, codec, i) {
        assert forall|i: int| 0 <= i < cells.len() implies (#[trigger] cells[i] is Some
            && may_spend(tx, codec, (codec.channel)(cells[i]->0), i, inputs)) by {
            assert(passes(tx, codec, i));
        }
    }
}

/// Whether a transaction with these input locks may spend the channel in the input at `index` of
/// the script group.
pub open spec fn may_spend(
    tx: Transaction,
    codec: Codec,
    channel: Channel,
    index: int,
    inputs: Seq<Seq<u8>>,
) -> bool {
    ||| exists|j: int|
        0 <= j < inputs.len() && unlocks(
            #[trigger] inputs[j],
            channel.party_a_unlock@,
            channel.party_b_unlock@,
        )
    ||| channel.coordinator_configured && witnessed(tx, codec, index)
}

/// Where the checks of the script group end: all inputs before pass, this one does not.
proof fn lemma_group_ends(tx: Transaction, codec: Codec) -> (at: int)
    ensures
        0 <= at <= usize::MAX,
        forall|k: int| 0 <= k < at ==> #[trigger] passes(tx, codec, k),
        at < usize::MAX ==> !passes(tx, codec, at),
        args_verdict(tx.script_args) is Ok ==> if at < usize::MAX {
            Some(verdict(tx, codec)) == group_decision(tx, codec, at)
        } else {
            verdict(tx, codec) is Ok
        },
{
    let decisions = group_decisions(tx, codec);
    let at = lemma_decided_at(decisions, 0);
    assert forall|k: int| 0 <= k < at implies #[trigger] passes(tx, codec, k) by {
        assert(decisions(k) is None);
    }
    at
}

/// Only the first input of the script group that does not pass decides.
proof fn lemma_reached_is_last(tx: Transaction, codec: Codec, index: int, at: int)
    requires
        reaches(tx, codec, index),
        !passes(tx, codec, index),
        0 <= at <= usize::MAX,
        forall|k: int| 0 <= k < at ==> #[trigger] passes(tx, codec, k),
        at < usize::MAX ==> !passes(tx, codec, at),
    ensures
        index == at,
{
    if index < at {
        assert(passes(tx, codec, index));
    }
    if at < index {
        assert(passes(tx, codec, at));
    }
}

/// A search fails only with an error of the VM, and the end of the inputs is none.
proof fn lemma_search_errors(tx: Transaction)
    ensures
        forall|a: Seq<u8>, b: Seq<u8>|
            #[trigger] participates(tx, a, b) matches Err(err) ==> (err matches Error::Sys(refusal)
                && refusal != SysError::IndexOutOfBound),
{
    assert forall|a: Seq<u8>, b: Seq<u8>|
        #[trigger] participates(tx, a, b) matches Err(err) ==> (err matches Error::Sys(refusal)
            && refusal != SysError::IndexOutOfBound) by {
        lemma_decided_at(input_decisions(tx, a, b), 0);
    }
}

/// A lock script with args is refused as such, and nothing else is.
pub proof fn law_refused_with_args(tx: Transaction, codec: Codec)
    ensures
        verdict(tx, codec) == Err::<(), Error>(Error::PCLSWithArgs) <==> (tx.script_args matches Ok(
            args,
        ) && args.len() > 0),
{
    lemma_group_ends(tx, codec);
    lemma_search_errors(tx);
}

/// A transaction is refused for a missing type script exactly if the checks reach an input of
/// the script group that has none.
pub proof fn law_refused_without_type(tx: Transaction, codec: Codec)
    ensures
        verdict(tx, codec) == Err::<(), Error>(Error::PCTSNotFound) <==> exists|i: int| #[trigger]
            reaches(tx, codec, i) && (tx.type_args)(Source::GroupInput, i) == Ok::<
                Option<Seq<u8>>,
                SysError,
            >(None),
{
    let at = lemma_group_ends(tx, codec);
    lemma_search_errors(tx);
    if verdict(tx, codec) == Err::<(), Error>(Error::PCTSNotFound) {
        assert(reaches(tx, codec, at));
    }
    assert forall|i: int| #[trigger]
        reaches(tx, codec, i) && (tx.type_args)(Source::GroupInput, i) == Ok::<
        Option<Seq<u8>>,
        SysError,
    >(None) implies verdict(tx, codec) == Err::<(), Error>(Error::PCTSNotFound) by {
        lemma_reached_is_last(tx, codec, i, at);
    }
}

/// Whether the input at `index` of the script group holds a channel that none of its participants
/// and no coordinator that it names wants to spend.
pub open spec fn strangers_channel(tx: Transaction, codec: Codec, index: int) -> bool {
    (tx.type_args)(Source::GroupInput, index) matches Ok(Some(args)) && {
        let channel = (codec.channel)(args);
        &&& participates(tx, channel.party_a_unlock@, channel.party_b_unlock@) == Ok::<bool, Error>(
            false,
        )
        &&& !(channel.coordinator_configured && witnessed(tx, codec, index))
    }
}

/// A transaction is refused as not a participant's exactly if the checks reach a channel that it
/// is not authorized for.
pub proof fn law_refused_not_participant(tx: Transaction, codec: Codec)
    ensures
        verdict(tx, codec) == Err::<(), Error>(Error::NotParticipant) <==> exists|i: int| #[trigger]
            reaches(tx, codec, i) && strangers_channel(tx, codec, i),
{
    let at = lemma_group_ends(tx, codec);
    lemma_search_errors(tx);
    if verdict(tx, codec) == Err::<(), Error>(Error::NotParticipant) {
        assert(reaches(tx, codec, at));
    }
    assert forall|i: int| #[trigger]
        reaches(tx, codec, i) && strangers_channel(tx, codec, i) implies verdict(tx, codec)
        == Err::<(), Error>(Error::NotParticipant) by {
        lemma_reached_is_last(tx, codec, i, at);
    }
}

/// An error of the VM is passed on exactly if it is the answer about the lock script, or the
/// checks reach an input of the script group whose type script, or the search for whose
/// participants, gave it. The end of a list is not such an error.
pub proof fn law_refused_by_vm(tx: Transaction, codec: Codec, err: SysError)
    ensures
        verdict(tx, codec) == Err::<(), Error>(Error::Sys(err)) <==> {
            ||| tx.script_args == Err::<Seq<u8>, SysError>(err)
            ||| err != SysError::IndexOutOfBound && exists|i: int| #[trigger]
                reaches(tx, codec, i) && match (tx.type_args)(Source::GroupInput, i) {
                    Ok(Some(args)) => participates(
                        tx,
                        (codec.channel)(args).party_a_unlock@,
                        (codec.channel)(args).party_b_unlock@,
                    ) == Err::<bool, Error>(Error::Sys(err)),
                    Ok(None) => false,
                    Err(refusal) => refusal == err,
                }
        },
{
    let at = lemma_group_ends(tx, codec);
    lemma_search_errors(tx);
    if verdict(tx, codec) == Err::<(), Error>(Error::Sys(err)) && tx.script_args is Ok {
        assert(reaches(tx, codec, at));
    }
    assert forall|i: int| #[trigger] reaches(tx, codec, i) && err != SysError::IndexOutOfBound
        && match (tx.type_args)(Source::GroupInput, i) {
        Ok(Some(args)) => participates(
            tx,
            (codec.channel)(args).party_a_unlock@,
            (codec.channel)(args).party_b_unlock@,
        ) == Err::<bool, Error>(Error::Sys(err)),
        Ok(None) => false,
        Err(refusal) => refusal == err,
    } implies verdict(tx, codec) == Err::<(), Error>(Error::Sys(err)) by {
        lemma_reached_is_last(tx, codec, i, at);
    }
}

/// A witness that is missing, that has no redeemer or that holds another one gives no rights: the
/// channel is then left to its participants.
pub proof fn law_witness_falls_back(tx: Transaction, codec: Codec, channel: Channel, index: int)
    requires
        (tx.input_types)(Source::GroupInput, index) matches Ok(Some(bytes)) ==> (codec.redeemer)(
            bytes,
        ) != Some(Redeemer::Coordinate),
    ensures
        authorizes(tx, codec, channel, index) == participates(
            tx,
            channel.party_a_unlock@,
            channel.party_b_unlock@,
        ),
{
}

/// Without a coordinator in any of its channels a transaction is judged without its witnesses.
pub proof fn law_no_coordinator(tx: Transaction, other: Transaction, codec: Codec)
    requires
        other.script_args == tx.script_args,
        other.type_args == tx.type_args,
        other.lock_hashes == tx.lock_hashes,
        forall|i: int|
            #[trigger] (tx.type_args)(Source::GroupInput, i) matches Ok(Some(args)) ==> !(
            codec.channel)(args).coordinator_configured,
    ensures
        verdict(tx, codec) == verdict(other, codec),
{
    assert forall|a: Seq<u8>, b: Seq<u8>| #[trigger] participates(tx, a, b) == participates(
        other,
        a,
        b,
    ) by {
        assert(input_decisions(tx, a, b) =~= input_decisions(other, a, b));
    }
    assert forall|i: int| #[trigger] group_decision(tx, codec, i) == group_decision(
        other,
        codec,
        i,
    ) by {}
    assert(group_decisions(tx, codec) =~= group_decisions(other, codec));
}

/// What answers a transcript answers each part of it.
pub proof fn lemma_answers_part(tx: Transaction, transcript: Seq<Exchange>, from: int, to: int)
    requires
        tx.answers(transcript),
        0 <= from <= to <= transcript.len(),
    ensures
        tx.answers(transcript.subrange(from, to)),
{
    let kept = transcript.subrange(from, to);
    assert forall|k: int| 0 <= k < kept.len() implies tx.gives(#[trigger] kept[k]) by {
        assert(kept[k] == transcript[from + k]);
    }
}

/// The check of a channel gives what the rule says of any transaction that the VM's answers are
/// about.
proof fn lemma_channel_follows_rule<W: Fn(&[u8]) -> Option<Redeemer>>(
    exchanges: Seq<Exchange>,
    index: int,
    channel: Channel,
    decode_witness: W,
    decision: Option<Result<(), Error>>,
    tx: Transaction,
    codec: Codec,
)
    requires
        channel_checked(exchanges, index, channel, decode_witness, decision),
        tx.answers(exchanges),
        codec.reads_redeemers(decode_witness),
    ensures
        decision == match authorizes(tx, codec, channel, index) {
            Ok(true) => None,
            Ok(false) => Some(Err::<(), Error>(Error::NotParticipant)),
            Err(err) => Some(Err(err)),
        },
{
    let unlock_a = channel.party_a_unlock@;
    let unlock_b = channel.party_b_unlock@;
    lemma_search_errors(tx);
    assert forall|found: Result<bool, Error>| #[trigger]
        searched(exchanges, unlock_a, unlock_b, found) implies found == participates(
        tx,
        unlock_a,
        unlock_b,
    ) by {
        law_search_follows_rule(exchanges, unlock_a, unlock_b, found, tx);
    }
    if exchanges.len() > 0 {
        let last = exchanges.len() - 1;
        assert(tx.gives(exchanges[last]));
        if searched(exchanges.drop_last(), unlock_a, unlock_b, Ok(false)) {
            lemma_answers_part(tx, exchanges, 0, last);
            law_search_follows_rule(exchanges.drop_last(), unlock_a, unlock_b, Ok(false), tx);
        }
    }
}

/// The check of an input of the script group gives what the rule says of any transaction that the
/// VM's answers are about.
proof fn lemma_input_follows_rule<C: Fn(&[u8]) -> Channel, W: Fn(&[u8]) -> Option<Redeemer>>(
    exchanges: Seq<Exchange>,
    index: int,
    decode_constants: C,
    decode_witness: W,
    decision: Option<Result<(), Error>>,
    tx: Transaction,
    codec: Codec,
)
    requires
        input_checked(exchanges, index, decode_constants, decode_witness, decision),
        tx.answers(exchanges),
        codec.reads_channels(decode_constants),
        codec.reads_redeemers(decode_witness),
    ensures
        decision == group_decision(tx, codec, index),
{
    assert(tx.gives(exchanges[0]));
    if let Ok(Some(args)) = exchanges[0]->type_args {
        let (bytes, channel) = choose|bytes: &[u8], channel: Channel|
            bytes@ == args && #[trigger] call_ensures(decode_constants, (bytes,), channel)
                && channel_checked(exchanges.skip(1), index, channel, decode_witness, decision);
        lemma_answers_part(tx, exchanges, 1, exchanges.len() as int);
        lemma_channel_follows_rule(
            exchanges.skip(1),
            index,
            channel,
            decode_witness,
            decision,
            tx,
            codec,
        );
    }
}

/// A run gives what the rule says of any transaction that the VM's answers are about, with
/// decoders that follow a codec.
pub proof fn law_run_follows_rule<C: Fn(&[u8]) -> Channel, W: Fn(&[u8]) -> Option<Redeemer>>(
    exchanges: Seq<Exchange>,
    decode_constants: C,
    decode_witness: W,
    outcome: Result<(), Error>,
    tx: Transaction,
    codec: Codec,
)
    requires
        ran(exchanges, decode_constants, decode_witness, outcome),
        forall|k: int|
            0 <= k < exchanges.len() ==> match #[trigger] exchanges[k] {
                Exchange::Script { args } => args == tx.script_args,
                Exchange::CellType { source, index, type_args } => type_args == (tx.type_args)(
                    source,
                    index as int,
                ),
                Exchange::LockHash { source, index, lock_hash } => lock_hash == (tx.lock_hashes)(
                    source,
                    index as int,
                ),
                Exchange::InputType { source, index, input_type } => input_type == (tx.input_types)(
                    source,
                    index as int,
                ),
            },
        forall|bytes: &[u8], channel: Channel| #[trigger]
            call_ensures(decode_constants, (bytes,), channel) ==> channel == (codec.channel)(
                bytes@,
            ),
        forall|bytes: &[u8], redeemer: Option<Redeemer>| #[trigger]
            call_ensures(decode_witness, (bytes,), redeemer) ==> redeemer == (codec.redeemer)(
                bytes@,
            ),
    ensures
        outcome == verdict(tx, codec),
{
    assert(tx.answers(exchanges));
    assert(tx.gives(exchanges[0]));
    if args_verdict(tx.script_args) is Ok {
        let checks = exchanges.skip(1);
        let starts = choose|starts: Seq<int>| #[trigger]
            checked_in_turn(checks, starts, decode_constants, decode_witness, outcome);
        let last = starts.len() - 1;
        let decisions = group_decisions(tx, codec);
        lemma_answers_part(tx, exchanges, 1, exchanges.len() as int);
        assert forall|k: int| 0 <= k < last implies #[trigger] decisions(k) is None by {
            let check = part(checks, starts, k);
            lemma_answers_part(tx, checks, starts[k], starts[k + 1]);
            lemma_input_follows_rule(
                check,
                k,
                decode_constants,
                decode_witness,
                None,
                tx,
                codec,
            );
        }
        lemma_undecided_before(decisions, 0, last);
        if last < usize::MAX {
            lemma_answers_part(tx, checks, starts[last], checks.len() as int);
            lemma_input_follows_rule(
                checks.skip(starts[last]),
                last,
                decode_constants,
                decode_witness,
                Some(outcome),
                tx,
                codec,
            );
            assert(decisions(last) == Some(outcome));
        }
    }
}

/// A run accepts only after it was told that its script has no args, and has seen the script group
/// to its end: `places` are those in the transcript at which the type script of each cell of the
/// group, from the first on, was asked for and handed out, and the end was told right after the
/// last of them.
pub proof fn law_run_sees_whole_group<
    C: Fn(&[u8]) -> Channel,
    W: Fn(&[u8]) -> Option<Redeemer>,
>(exchanges: Seq<Exchange>, decode_constants: C, decode_witness: W) -> (places: Seq<int>)
    requires
        ran(exchanges, decode_constants, decode_witness, Ok(())),
    ensures
        exchanges[0] matches Exchange::Script { args: Ok(args) } && args.len() == 0,
        places.len() <= usize::MAX,
        forall|i: int|
            0 <= i < places.len() ==> 0 < #[trigger] places[i] < exchanges.len() && (
            exchanges[places[i]] matches Exchange::CellType {
                source,
                index,
                type_args: Ok(Some(_)),
            } && source == Source::GroupInput && index == i),
        places.len() < usize::MAX ==> exchanges.last() == (Exchange::CellType {
            source: Source::GroupInput,
            index: places.len() as usize,
            type_args: Err(SysError::IndexOutOfBound),
        }),
        saw_whole_group(exchanges),
{
    let checks = exchanges.skip(1);
    let starts = choose|starts: Seq<int>| #[trigger]
        checked_in_turn(checks, starts, decode_constants, decode_witness, Ok(()));
    let last = starts.len() - 1;
    let places = Seq::new(last as nat, |i: int| 1 + starts[i]);
    assert forall|i: int| 0 <= i < places.len() implies 0 < #[trigger] places[i] < exchanges.len()
        && (exchanges[places[i]] matches Exchange::CellType {
        source,
        index,
        type_args: Ok(Some(_)),
    } && source == Source::GroupInput && index == i) by {
        let check = part(checks, starts, i);
        assert(check[0] == exchanges[1 + starts[i]]);
    }
    assert forall|i: usize| i < last implies #[trigger] asked_for_type(exchanges, i) by {
        assert(0 < places[i as int] < exchanges.len());
    }
    if last < usize::MAX {
        let check = checks.skip(starts[last]);
        assert(check.last() == exchanges.last());
    }
    places
}

/// Which of the parts that begin at `starts` holds the place `at`.
proof fn lemma_part_of(starts: Seq<int>, at: int, last: int) -> (k: int)
    requires
        0 <= last < starts.len(),
        starts[0] <= at,
    ensures
        0 <= k <= last,
        starts[k] <= at,
        k < last ==> at < starts[k + 1],
    decreases last,
{
    if starts[last] <= at {
        last
    } else {
        lemma_part_of(starts, at, last - 1)
    }
}

/// Each exchange after the first belongs to the check of an input of the script group, at some
/// place of it.
proof fn lemma_checked_at<C: Fn(&[u8]) -> Channel, W: Fn(&[u8]) -> Option<Redeemer>>(
    exchanges: Seq<Exchange>,
    decode_constants: C,
    decode_witness: W,
    outcome: Result<(), Error>,
    at: int,
) -> (found: (Seq<Exchange>, int, Option<Result<(), Error>>, int))
    requires
        ran(exchanges, decode_constants, decode_witness, outcome),
        0 < at < exchanges.len(),
    ensures
        input_checked(found.0, found.1, decode_constants, decode_witness, found.2),
        0 <= found.3 < found.0.len(),
        found.0[found.3] == exchanges[at],
{
    let checks = exchanges.skip(1);
    let starts = choose|starts: Seq<int>| #[trigger]
        checked_in_turn(checks, starts, decode_constants, decode_witness, outcome);
    let last = starts.len() - 1;
    assert(checks[at - 1] == exchanges[at]);
    let k = lemma_part_of(starts, at - 1, last);
    if k < last {
        let check = part(checks, starts, k);
        assert(check[at - 1 - starts[k]] == exchanges[at]);
        (check, k, None, at - 1 - starts[k])
    } else {
        let check = checks.skip(starts[last]);
        assert(check[at - 1 - starts[last]] == exchanges[at]);
        (check, last, Some(outcome), at - 1 - starts[last])
    }
}

/// The check of an input asks for its type script first, and after that for lock hashes of inputs
/// and for the witness of this very input only.
proof fn lemma_input_asks<C: Fn(&[u8]) -> Channel, W: Fn(&[u8]) -> Option<Redeemer>>(
    exchanges: Seq<Exchange>,
    index: int,
    decode_constants: C,
    decode_witness: W,
    decision: Option<Result<(), Error>>,
    at: int,
)
    requires
        input_checked(exchanges, index, decode_constants, decode_witness, decision),
        0 < at < exchanges.len(),
    ensures
        match exchanges[at] {
            Exchange::LockHash { source, .. } => source == Source::Input,
            Exchange::InputType { source, index: asked, .. } => source == Source::GroupInput
                && asked == index,
            _ => false,
        },
{
    let checks = exchanges.skip(1);
    assert(checks[at - 1] == exchanges[at]);
    if at < exchanges.len() - 1 {
        assert(checks.drop_last()[at - 1] == exchanges[at]);
    }
}

/// In the check of an input, a channel was read in the args of each type script handed out.
proof fn lemma_input_reads_channel<C: Fn(&[u8]) -> Channel, W: Fn(&[u8]) -> Option<Redeemer>>(
    exchanges: Seq<Exchange>,
    index: int,
    decode_constants: C,
    decode_witness: W,
    decision: Option<Result<(), Error>>,
    at: int,
    args: Seq<u8>,
)
    requires
        input_checked(exchanges, index, decode_constants, decode_witness, decision),
        0 <= at < exchanges.len(),
        exchanges[at] is CellType,
        exchanges[at]->type_args == Ok::<Option<Seq<u8>>, SysError>(Some(args)),
    ensures
        read_channel(decode_constants, args),
{
    if at > 0 {
        lemma_input_asks(exchanges, index, decode_constants, decode_witness, decision, at);
    }
}

/// A run asks for the args of its script first and once, and after that for type scripts and
/// witnesses of the script group and for lock hashes of the inputs of the transaction only.
pub proof fn law_run_asks<C: Fn(&[u8]) -> Channel, W: Fn(&[u8]) -> Option<Redeemer>>(
    exchanges: Seq<Exchange>,
    decode_constants: C,
    decode_witness: W,
    outcome: Result<(), Error>,
)
    requires
        ran(exchanges, decode_constants, decode_witness, outcome),
    ensures
        exchanges.len() > 0,
        forall|k: int|
            0 <= k < exchanges.len() ==> match #[trigger] exchanges[k] {
                Exchange::Script { .. } => k == 0,
                Exchange::CellType { source, .. } => k > 0 && source == Source::GroupInput,
                Exchange::LockHash { source, .. } => k > 0 && source == Source::Input,
                Exchange::InputType { source, .. } => k > 0 && source == Source::GroupInput,
            },
{
    assert forall|k: int| 0 <= k < exchanges.len() implies match #[trigger] exchanges[k] {
        Exchange::Script { .. } => k == 0,
        Exchange::CellType { source, .. } => k > 0 && source == Source::GroupInput,
        Exchange::LockHash { source, .. } => k > 0 && source == Source::Input,
        Exchange::InputType { source, .. } => k > 0 && source == Source::GroupInput,
    } by {
        if k > 0 {
            let (check, index, decision, at) = lemma_checked_at(
                exchanges,
                decode_constants,
                decode_witness,
                outcome,
                k,
            );
            if at > 0 {
                lemma_input_asks(check, index, decode_constants, decode_witness, decision, at);
            }
        }
    }
}

/// A run goes on from no type script without reading a channel in its args, in all of them: args
/// that hold none are never accepted.
pub proof fn law_run_reads_every_channel<
    C: Fn(&[u8]) -> Channel,
    W: Fn(&[u8]) -> Option<Redeemer>,
>(
    exchanges: Seq<Exchange>,
    decode_constants: C,
    decode_witness: W,
    outcome: Result<(), Error>,
)
    requires
        ran(exchanges, decode_constants, decode_witness, outcome),
    ensures
        forall|k: int|
            0 <= k < exchanges.len() ==> (#[trigger] exchanges[k] matches Exchange::CellType {
                type_args: Ok(Some(args)),
                ..
            } ==> exists|bytes: &[u8], channel: Channel|
                bytes@ == args && #[trigger] call_ensures(decode_constants, (bytes,), channel)),
        read_every_channel(exchanges, decode_constants),
{
    assert forall|k: int, args: Seq<u8>|
        0 <= k < exchanges.len() && (#[trigger] exchanges[k]) is CellType
            && exchanges[k]->type_args == Ok::<Option<Seq<u8>>, SysError>(
            Some(args),
        ) implies #[trigger] read_channel(decode_constants, args) by {
        let (check, index, decision, at) = lemma_checked_at(
            exchanges,
            decode_constants,
            decode_witness,
            outcome,
            k,
        );
        lemma_input_reads_channel(
            check,
            index,
            decode_constants,
            decode_witness,
            decision,
            at,
            args,
        );
    }
    assert forall|k: int| 0 <= k < exchanges.len() implies (
    #[trigger] exchanges[k] matches Exchange::CellType {
        type_args: Ok(Some(args)),
        ..
    } ==> exists|bytes: &[u8], channel: Channel|
        bytes@ == args && #[trigger] call_ensures(decode_constants, (bytes,), channel)) by {
        if let Exchange::CellType { type_args: Ok(Some(args)), .. } = exchanges[k] {
            assert(read_channel(decode_constants, args));
        }
    }
}

/// Checks take at least one exchange each.
proof fn lemma_starts_apart<C: Fn(&[u8]) -> Channel, W: Fn(&[u8]) -> Option<Redeemer>>(
    exchanges: Seq<Exchange>,
    starts: Seq<int>,
    decode_constants: C,
    decode_witness: W,
    k: int,
)
    requires
        passed_in_turn(exchanges, starts, decode_constants, decode_witness),
        0 <= k < starts.len(),
    ensures
        starts[k] >= k,
    decreases k,
{
    if k > 0 {
        lemma_starts_apart(exchanges, starts, decode_constants, decode_witness, k - 1);
        assert(part(exchanges, starts, k - 1).len() > 0);
    }
}

/// A run stops at the first answer that decides, and gives what that answer says: the end of the
/// script group accepts, the end of the inputs and a witness refuse as not a participant's, any
/// other refusal of the VM is the error. It never stops at a type script that was handed out or at
/// a lock hash. Said of runs that put fewer questions than can be counted.
pub proof fn law_run_ends<C: Fn(&[u8]) -> Channel, W: Fn(&[u8]) -> Option<Redeemer>>(
    exchanges: Seq<Exchange>,
    decode_constants: C,
    decode_witness: W,
    outcome: Result<(), Error>,
)
    requires
        ran(exchanges, decode_constants, decode_witness, outcome),
        exchanges.len() < usize::MAX,
    ensures
        match exchanges.last() {
            Exchange::Script { args } => match args {
                Ok(args) => args.len() > 0 && outcome == Err::<(), Error>(Error::PCLSWithArgs),
                Err(refusal) => outcome == Err::<(), Error>(Error::Sys(refusal)),
            },
            Exchange::CellType { type_args, .. } => match type_args {
                Ok(Some(_)) => false,
                Ok(None) => outcome == Err::<(), Error>(Error::PCTSNotFound),
                Err(SysError::IndexOutOfBound) => outcome == Ok::<(), Error>(()),
                Err(refusal) => outcome == Err::<(), Error>(Error::Sys(refusal)),
            },
            Exchange::LockHash { lock_hash, .. } => match lock_hash {
                Ok(_) => false,
                Err(SysError::IndexOutOfBound) => outcome == Err::<(), Error>(
                    Error::NotParticipant,
                ),
                Err(refusal) => outcome == Err::<(), Error>(Error::Sys(refusal)),
            },
            Exchange::InputType { .. } => outcome == Err::<(), Error>(Error::NotParticipant),
        },
{
    if args_verdict(exchanges[0]->args) is Ok {
        let checks = exchanges.skip(1);
        let starts = choose|starts: Seq<int>| #[trigger]
            checked_in_turn(checks, starts, decode_constants, decode_witness, outcome);
        let last = starts.len() - 1;
        lemma_starts_apart(checks, starts, decode_constants, decode_witness, last);
        let check = checks.skip(starts[last]);
        assert(check.last() == exchanges.last());
        if check.len() > 1 {
            assert(check.skip(1).last() == exchanges.last());
        }
    }
}

/// A transaction as the lists that the VM answers from.
pub struct Listing {
    /// The args of the running lock script.
    pub script_args: Seq<u8>,
    /// The args of the type script of each cell of the script group; `None` where it has none.
    pub cells: Seq<Option<Seq<u8>>>,
    /// The lock hash of each input cell of the transaction.
    pub inputs: Seq<Seq<u8>>,
    /// The `input_type` field of the witness args of each input of the script group.
    pub witnesses: spec_fn(int) -> Result<Option<Seq<u8>>, SysError>,
}

impl Listing {
    /// Whether the cell at `index` of the script group may be spent: it has a type script, and an
    /// input cell is locked by one of the two parties of its channel, or the channel names a
    /// coordinator and the witness of this very cell is a Coordinate redeemer.
    pub open spec fn may_spend_cell(self, codec: Codec, index: int) -> bool {
        self.cells[index] matches Some(args) && {
            let channel = (codec.channel)(args);
            ||| exists|j: int|
                0 <= j < self.inputs.len() && (#[trigger] self.inputs[j]
                    == channel.party_a_unlock@ || self.inputs[j] == channel.party_b_unlock@)
            ||| channel.coordinator_configured && ((self.witnesses)(index) matches Ok(Some(bytes))
                && (codec.redeemer)(bytes) == Some(Redeemer::Coordinate))
        }
    }

    /// Whether the cell at `index` is the first of the script group that may not be spent.
    pub open spec fn stops_at(self, codec: Codec, index: int) -> bool {
        &&& 0 <= index < self.cells.len()
        &&& !self.may_spend_cell(codec, index)
        &&& forall|i: int| 0 <= i < index ==> #[trigger] self.may_spend_cell(codec, i)
    }
}

/// A run on a VM that answers from lists accepts exactly if the lock script has no args and every
/// cell of the script group may be spent. Otherwise it refuses: for the args, or else for the first
/// cell that may not be spent, which has no type script or no one entitled to spend it.
pub proof fn law_run_who_may_spend<C: Fn(&[u8]) -> Channel, W: Fn(&[u8]) -> Option<Redeemer>>(
    exchanges: Seq<Exchange>,
    decode_constants: C,
    decode_witness: W,
    outcome: Result<(), Error>,
    listing: Listing,
    codec: Codec,
)
    requires
        ran(exchanges, decode_constants, decode_witness, outcome),
        listing.cells.len() < usize::MAX,
        listing.inputs.len() < usize::MAX,
        forall|k: int|
            0 <= k < exchanges.len() ==> match #[trigger] exchanges[k] {
                Exchange::Script { args } => args == Ok::<Seq<u8>, SysError>(listing.script_args),
                Exchange::CellType { source, index, type_args } => source == Source::GroupInput
                    ==> type_args == if index < listing.cells.len() {
                    Ok::<Option<Seq<u8>>, SysError>(listing.cells[index as int])
                } else {
                    Err(SysError::IndexOutOfBound)
                },
                Exchange::LockHash { source, index, lock_hash } => source == Source::Input
                    ==> lock_hash == if index < listing.inputs.len() {
                    Ok::<Seq<u8>, SysError>(listing.inputs[index as int])
                } else {
                    Err(SysError::IndexOutOfBound)
                },
                Exchange::InputType { source, index, input_type } => source == Source::GroupInput
                    ==> input_type == (listing.witnesses)(index as int),
            },
        forall|bytes: &[u8], channel: Channel| #[trigger]
            call_ensures(decode_constants, (bytes,), channel) ==> channel == (codec.channel)(
                bytes@,
            ),
        forall|bytes: &[u8], redeemer: Option<Redeemer>| #[trigger]
            call_ensures(decode_witness, (bytes,), redeemer) ==> redeemer == (codec.redeemer)(
                bytes@,
            ),
    ensures
        outcome is Ok <==> listing.script_args.len() == 0 && forall|i: int|
            0 <= i < listing.cells.len() ==> #[trigger] listing.may_spend_cell(codec, i),
        outcome == Err::<(), Error>(Error::PCLSWithArgs) <==> listing.script_args.len() > 0,
        outcome == Err::<(), Error>(Error::PCTSNotFound) <==> listing.script_args.len() == 0
            && exists|i: int| #[trigger]
            listing.stops_at(codec, i) && listing.cells[i] is None,
        outcome == Err::<(), Error>(Error::NotParticipant) <==> listing.script_args.len() == 0
            && exists|i: int| #[trigger]
            listing.stops_at(codec, i) && listing.cells[i] is Some,
{
    let cells = listing.cells;
    let inputs = listing.inputs;
    let tx = Transaction {
        script_args: Ok(listing.script_args),
        type_args: |source: Source, i: int|
            if 0 <= i < cells.len() {
                Ok(cells[i])
            } else {
                Err(SysError::IndexOutOfBound)
            },
        lock_hashes: |source: Source, i: int|
            if 0 <= i < inputs.len() {
                Ok(inputs[i])
            } else {
                Err(SysError::IndexOutOfBound)
            },
        input_types: |source: Source, i: int| (listing.witnesses)(i),
    };
    law_run_asks(exchanges, decode_constants, decode_witness, outcome);
    law_run_follows_rule(exchanges, decode_constants, decode_witness, outcome, tx, codec);
    law_refused_with_args(tx, codec);
    law_refused_without_type(tx, codec);
    law_refused_not_participant(tx, codec);
    law_who_may_spend(tx, codec, cells, inputs);
    assert forall|i: int| 0 <= i < cells.len() implies #[trigger] listing.may_spend_cell(codec, i)
        == passes(tx, codec, i) && strangers_channel(tx, codec, i) == (cells[i] is Some
        && !listing.may_spend_cell(codec, i)) by {
        if let Some(args) = cells[i] {
            let channel = (codec.channel)(args);
            law_participant(tx, channel.party_a_unlock@, channel.party_b_unlock@, inputs);
            assert forall|j: int| 0 <= j < inputs.len() implies (#[trigger] inputs[j]
                == channel.party_a_unlock@ || inputs[j] == channel.party_b_unlock@) == unlocks(
                inputs[j],
                channel.party_a_unlock@,
                channel.party_b_unlock@,
            ) by {}
        }
    }
    law_acceptance(tx, codec, cells);
    assert(listing.script_args.len() == 0 ==> listing.script_args =~= Seq::empty());
    if listing.script_args.len() == 0 {
        assert forall|i: int| #[trigger] listing.stops_at(codec, i) implies reaches(
            tx,
            codec,
            i,
        ) by {
            assert forall|k: int| 0 <= k < i implies #[trigger] passes(tx, codec, k) by {
                assert(listing.may_spend_cell(codec, k));
            }
        }
        assert forall|i: int| #[trigger]
            reaches(tx, codec, i) && 0 <= i < cells.len() && !passes(
                tx,
                codec,
                i,
            ) implies listing.stops_at(codec, i) by {
            assert forall|k: int| 0 <= k < i implies #[trigger] listing.may_spend_cell(
                codec,
                k,
            ) by {
                assert(passes(tx, codec, k));
            }
        }
    }
}

/// The transcript holds an answer as it was handed on, whole and unchanged.
pub proof fn law_answers_recorded(
    bytes: Result<Vec<u8>, SysError>,
    optional: Result<Option<Vec<u8>>, SysError>,
    hash: Result<[u8; 32], SysError>,
)
    ensures
        match (bytes, bytes_of(bytes)) {
            (Ok(given), Ok(recorded)) => given@ == recorded,
            (Err(given), Err(recorded)) => given == recorded,
            _ => false,
        },
        match (optional, bytes_of_opt(optional)) {
            (Ok(Some(given)), Ok(Some(recorded))) => given@ == recorded,
            (Ok(None), Ok(None)) => true,
            (Err(given), Err(recorded)) => given == recorded,
            _ => false,
        },
        match (hash, hash_of(hash)) {
            (Ok(given), Ok(recorded)) => given@ == recorded,
            (Err(given), Err(recorded)) => given == recorded,
            _ => false,
        },
{
}

/// A look at a witness asks for the witness of the very input it is about, in the script group, and
/// finds a Coordinate redeemer exactly where the whole of its `input_type` field is one. A missing
/// or malformed witness is none.
pub proof fn law_witness_decides<W: Fn(&[u8]) -> Option<Redeemer>>(
    exchange: Exchange,
    index: int,
    decode_witness: W,
    coordinate: bool,
    redeemer_of: spec_fn(Seq<u8>) -> Option<Redeemer>,
)
    requires
        witness_read(exchange, index, decode_witness, coordinate),
        forall|bytes: &[u8], redeemer: Option<Redeemer>| #[trigger]
            call_ensures(decode_witness, (bytes,), redeemer) ==> redeemer == redeemer_of(bytes@),
    ensures
        exchange matches Exchange::InputType { source, index: asked, input_type } && source
            == Source::GroupInput && asked == index && (coordinate <==> (input_type matches Ok(
            Some(bytes),
        ) && redeemer_of(bytes) == Some(Redeemer::Coordinate))),
{
}

/// Whether two exchanges are the same question.
pub open spec fn same_question(left: Exchange, right: Exchange) -> bool {
    match (left, right) {
        (Exchange::Script { .. }, Exchange::Script { .. }) => true,
        (
            Exchange::CellType { source: s, index: i, .. },
            Exchange::CellType { source: t, index: j, .. },
        ) => s == t && i == j,
        (
            Exchange::LockHash { source: s, index: i, .. },
            Exchange::LockHash { source: t, index: j, .. },
        ) => s == t && i == j,
        (
            Exchange::InputType { source: s, index: i, .. },
            Exchange::InputType { source: t, index: j, .. },
        ) => s == t && i == j,
        _ => false,
    }
}

/// An index at which this question stands in the transcript.
spec fn place_asked(transcript: Seq<Exchange>, question: Exchange) -> int {
    choose|k: int| 0 <= k < transcript.len() && same_question(#[trigger] transcript[k], question)
}

/// A VM that gives the same answer to the same question has a transaction that its answers are
/// about.
pub proof fn law_transcript_has_transaction(transcript: Seq<Exchange>)
    requires
        forall|j: int, k: int|
            0 <= j < transcript.len() && 0 <= k < transcript.len() && same_question(
                #[trigger] transcript[j],
                #[trigger] transcript[k],
            ) ==> transcript[j] == transcript[k],
    ensures
        exists|tx: Transaction| tx.answers(transcript),
{
    let tx = Transaction {
        script_args: transcript[place_asked(
            transcript,
            Exchange::Script { args: Err(SysError::Encoding) },
        )]->args,
        type_args: |source: Source, i: int|
            transcript[place_asked(
                transcript,
                Exchange::CellType { source, index: i as usize, type_args: Err(SysError::Encoding) },
            )]->type_args,
        lock_hashes: |source: Source, i: int|
            transcript[place_asked(
                transcript,
                Exchange::LockHash { source, index: i as usize, lock_hash: Err(SysError::Encoding) },
            )]->lock_hash,
        input_types: |source: Source, i: int|
            transcript[place_asked(
                transcript,
                Exchange::InputType { source, index: i as usize, input_type: Err(SysError::Encoding) },
            )]->input_type,
    };
    assert forall|k: int| 0 <= k < transcript.len() implies tx.gives(#[trigger] transcript[k]) by {
        let question = match transcript[k] {
            Exchange::Script { .. } => Exchange::Script { args: Err(SysError::Encoding) },
            Exchange::CellType { source, index, .. } => Exchange::CellType {
                source,
                index,
                type_args: Err(SysError::Encoding),
            },
            Exchange::LockHash { source, index, .. } => Exchange::LockHash {
                source,
                index,
                lock_hash: Err(SysError::Encoding),
            },
            Exchange::InputType { source, index, .. } => Exchange::InputType {
                source,
                index,
                input_type: Err(SysError::Encoding),
            },
        };
        assert(same_question(transcript[k], question));
        let j = place_asked(transcript, question);
        assert(same_question(transcript[j], transcript[k]));
    }
    assert(tx.answers(transcript));
}

/// Decoders that read the same bytes in the same way have a codec that they follow.
pub proof fn law_decoders_have_codec<
    C: Fn(&[u8]) -> Channel,
    W: Fn(&[u8]) -> Option<Redeemer>,
>(decode_constants: C, decode_witness: W)
    requires
        forall|x: &[u8], y: &[u8], c: Channel, d: Channel|
            #![trigger call_ensures(decode_constants, (x,), c), call_ensures(decode_constants, (y,), d)]
            call_ensures(decode_constants, (x,), c) && call_ensures(decode_constants, (y,), d) && x@
                == y@ ==> c == d,
        forall|x: &[u8], y: &[u8], r: Option<Redeemer>, s: Option<Redeemer>|
            #![trigger call_ensures(decode_witness, (x,), r), call_ensures(decode_witness, (y,), s)]
            call_ensures(decode_witness, (x,), r) && call_ensures(decode_witness, (y,), s) && x@
                == y@ ==> r == s,
    ensures
        exists|codec: Codec| #[trigger]
            codec.reads_channels(decode_constants) && codec.reads_redeemers(decode_witness),
{
    let codec = Codec {
        channel: |bytes: Seq<u8>| channel_read(decode_constants, bytes),
        redeemer: |bytes: Seq<u8>| redeemer_read(decode_witness, bytes),
    };
    assert forall|args: &[u8], channel: Channel| #[trigger]
        call_ensures(decode_constants, (args,), channel) implies channel == (codec.channel)(
        args@,
    ) by {
        assert(may_read_channel(decode_constants, args@, channel));
        assert(may_read_channel(decode_constants, args@, (codec.channel)(args@)));
    }
    assert forall|bytes: &[u8], redeemer: Option<Redeemer>| #[trigger]
        call_ensures(decode_witness, (bytes,), redeemer) implies redeemer == (codec.redeemer)(
        bytes@,
    ) by {
        assert(may_read_redeemer(decode_witness, bytes@, redeemer));
        assert(may_read_redeemer(decode_witness, bytes@, (codec.redeemer)(bytes@)));
    }
    assert(codec.reads_channels(decode_constants) && codec.reads_redeemers(decode_witness));
}

/// A channel that `decode` reads out of these bytes.
spec fn channel_read<C: Fn(&[u8]) -> Channel>(decode: C, bytes: Seq<u8>) -> Channel {
    choose|channel: Channel| may_read_channel(decode, bytes, channel)
}

/// Whether `decode` may read this channel out of these bytes.
spec fn may_read_channel<C: Fn(&[u8]) -> Channel>(
    decode: C,
    bytes: Seq<u8>,
    channel: Channel,
) -> bool {
    exists|x: &[u8]| x@ == bytes && #[trigger] call_ensures(decode, (x,), channel)
}

/// A redeemer that `decode` reads out of these bytes.
spec fn redeemer_read<W: Fn(&[u8]) -> Option<Redeemer>>(decode: W, bytes: Seq<u8>) -> Option<
    Redeemer,
> {
    choose|redeemer: Option<Redeemer>| may_read_redeemer(decode, bytes, redeemer)
}

/// Whether `decode` may read this redeemer out of these bytes.
spec fn may_read_redeemer<W: Fn(&[u8]) -> Option<Redeemer>>(
    decode: W,
    bytes: Seq<u8>,
    redeemer: Option<Redeemer>,
) -> bool {
    exists|x: &[u8]| x@ == bytes && #[trigger] call_ensures(decode, (x,), redeemer)
}

} // verus!
