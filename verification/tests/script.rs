use ckb_std::ckb_constants::{CellField, Source};
use ckb_std::ckb_types::packed::{Bytes, BytesOpt, Script, WitnessArgs};
use ckb_std::ckb_types::prelude::{Builder, Entity, Pack};
use ckb_std::syscalls::traits::{Error as Refusal, IoResult, SyscallImpls};
use perun_channel_lockscript::channel::{Channel, Redeemer};
use perun_channel_lockscript::error::{Error, SysError};
use perun_channel_lockscript::lock::{
    main, program_entry, verify_is_participant, witness_is_coordinate,
};
use perun_channel_lockscript::vm::Vm;
use std::sync::{Arc, Mutex};

/// The system calls are answered process-wide: one transaction at a time.
static ONE_AT_A_TIME: Mutex<()> = Mutex::new(());

/// A question to the VM.
#[derive(Clone, Copy, Debug, PartialEq)]
enum Question {
    Script,
    Type(usize),
    Lock(usize),
    Witness(usize),
}

/// A transaction for the script to run on. Each item is what the VM loads, or why it does not.
struct Tx {
    asked: Arc<Mutex<Vec<Question>>>,
    script: Result<Vec<u8>, Refusal>,
    locks: Vec<Result<Vec<u8>, Refusal>>,
    types: Vec<Result<Vec<u8>, Refusal>>,
    witnesses: Vec<Result<Vec<u8>, Refusal>>,
}

fn load(item: &Result<Vec<u8>, Refusal>, buf: &mut [u8], offset: usize) -> IoResult {
    match item {
        Ok(data) => {
            let rest = &data[offset..];
            let loaded = rest.len().min(buf.len());
            buf[..loaded].copy_from_slice(&rest[..loaded]);
            if rest.len() > buf.len() {
                IoResult::PartialLoaded { loaded, available: rest.len() }
            } else {
                IoResult::FullyLoaded(loaded)
            }
        }
        Err(refusal) => IoResult::Error(*refusal),
    }
}

fn load_at(
    items: &Vec<Result<Vec<u8>, Refusal>>,
    index: usize,
    buf: &mut [u8],
    offset: usize,
) -> IoResult {
    match items.get(index) {
        Some(item) => load(item, buf, offset),
        None => IoResult::Error(Refusal::IndexOutOfBound),
    }
}

impl Tx {
    /// Keeps a record of the question; a load that goes on at an offset is part of an earlier one.
    fn note(&self, question: Question, offset: usize) {
        if offset == 0 {
            self.asked.lock().unwrap().push(question);
        }
    }
}

impl SyscallImpls for Tx {
    fn load_script(&self, buf: &mut [u8], offset: usize) -> IoResult {
        self.note(Question::Script, offset);
        load(&self.script, buf, offset)
    }

    fn load_cell_by_field(
        &self,
        buf: &mut [u8],
        offset: usize,
        index: usize,
        source: Source,
        field: CellField,
    ) -> IoResult {
        match (source, field) {
            (Source::Input, CellField::LockHash) => {
                self.note(Question::Lock(index), offset);
                load_at(&self.locks, index, buf, offset)
            }
            (Source::GroupInput, CellField::Type) => {
                self.note(Question::Type(index), offset);
                load_at(&self.types, index, buf, offset)
            }
            _ => panic!("unexpected question about a cell"),
        }
    }

    fn load_witness(
        &self,
        buf: &mut [u8],
        offset: usize,
        index: usize,
        source: Source,
    ) -> IoResult {
        match source {
            Source::GroupInput => {
                self.note(Question::Witness(index), offset);
                load_at(&self.witnesses, index, buf, offset)
            }
            _ => panic!("unexpected question about a witness"),
        }
    }
}

fn script(args: &[u8]) -> Result<Vec<u8>, Refusal> {
    Ok(Script::new_builder().args(args.pack()).build().as_slice().to_vec())
}

fn bytes_opt(bytes: Option<&[u8]>) -> BytesOpt {
    let bytes: Option<Bytes> = bytes.map(|bytes| bytes.pack());
    BytesOpt::new_builder().set(bytes).build()
}

/// Witness args with other bytes in the fields around `input_type`.
fn witness(input_type: Option<&[u8]>) -> Result<Vec<u8>, Refusal> {
    Ok(WitnessArgs::new_builder()
        .lock(bytes_opt(Some(b"coordinate")))
        .input_type(bytes_opt(input_type))
        .output_type(bytes_opt(Some(b"coordinate")))
        .build()
        .as_slice()
        .to_vec())
}

fn hash(tag: u8) -> Result<Vec<u8>, Refusal> {
    Ok(vec![tag; 32])
}

/// The args of a channel type script: the tags of the two unlock hashes, then whether there is a
/// coordinator.
fn decode_constants(args: &[u8]) -> Channel {
    Channel {
        party_a_unlock: [args[0]; 32],
        party_b_unlock: [args[1]; 32],
        coordinator_configured: args[2] != 0,
    }
}

fn decode_witness(bytes: &[u8]) -> Option<Redeemer> {
    if bytes == b"coordinate" {
        Some(Redeemer::Coordinate)
    } else if bytes == b"fund" {
        Some(Redeemer::Other)
    } else {
        None
    }
}

fn error_code(err: Error) -> i8 {
    match err {
        Error::PCLSWithArgs => 11,
        Error::PCTSNotFound => 12,
        Error::NotParticipant => 13,
        Error::Sys(_) => 14,
    }
}

/// What `ask` makes of a VM that runs on this transaction.
fn on<R>(tx: Tx, ask: impl FnOnce(&mut Vm) -> R) -> R {
    let _alone = ONE_AT_A_TIME.lock().unwrap_or_else(|poisoned| poisoned.into_inner());
    ckb_std::syscalls::init(Box::new(tx));
    ask(&mut Vm::new())
}

fn run(tx: Tx) -> Result<(), Error> {
    on(tx, |vm| main(vm, &decode_constants, &decode_witness))
}

fn run_to_code(tx: Tx) -> i8 {
    on(tx, |vm| program_entry(vm, &decode_constants, &decode_witness, &error_code))
}

/// The outcome of a run, and the questions that it put.
fn run_and_ask(tx: Tx) -> (Result<(), Error>, Vec<Question>) {
    let asked = tx.asked.clone();
    let outcome = run(tx);
    let questions = asked.lock().unwrap().clone();
    (outcome, questions)
}

/// A transaction that spends one channel of the parties 1 and 2.
fn one_channel(coordinator: u8, locks: Vec<Result<Vec<u8>, Refusal>>) -> Tx {
    Tx {
        asked: Arc::new(Mutex::new(vec![])),
        script: script(&[]),
        locks,
        types: vec![script(&[1, 2, coordinator])],
        witnesses: vec![],
    }
}

fn search(locks: Vec<Result<Vec<u8>, Refusal>>) -> Result<bool, Error> {
    on(one_channel(0, locks), |vm| verify_is_participant(vm, &[1; 32], &[2; 32]))
}

#[test]
fn first_party_may_spend() {
    assert_eq!(run(one_channel(0, vec![hash(9), hash(1)])), Ok(()));
}

#[test]
fn second_party_may_spend() {
    assert_eq!(run(one_channel(0, vec![hash(9), hash(2)])), Ok(()));
}

#[test]
fn stranger_may_not_spend() {
    assert_eq!(run(one_channel(0, vec![hash(9), hash(3)])), Err(Error::NotParticipant));
}

#[test]
fn script_with_args_is_refused() {
    let mut tx = one_channel(0, vec![hash(1)]);
    tx.script = script(&[0]);
    assert_eq!(run(tx), Err(Error::PCLSWithArgs));
}

#[test]
fn script_that_cannot_be_loaded_is_refused() {
    let mut tx = one_channel(0, vec![hash(1)]);
    tx.script = Err(Refusal::IndexOutOfBound);
    assert_eq!(run(tx), Err(Error::Sys(SysError::IndexOutOfBound)));
    let mut tx = one_channel(0, vec![hash(1)]);
    tx.script = Ok(vec![1, 2, 3]);
    assert_eq!(run(tx), Err(Error::Sys(SysError::Encoding)));
}

#[test]
fn cell_without_type_script_is_refused() {
    let mut tx = one_channel(0, vec![hash(1)]);
    tx.types.push(Err(Refusal::ItemMissing));
    assert_eq!(run(tx), Err(Error::PCTSNotFound));
}

#[test]
fn cell_whose_type_cannot_be_loaded_is_refused() {
    let mut tx = one_channel(0, vec![hash(1)]);
    tx.types.push(Err(Refusal::Other(77)));
    assert_eq!(run(tx), Err(Error::Sys(SysError::Unknown(77))));
    let mut tx = one_channel(0, vec![hash(1)]);
    tx.types[0] = Ok(vec![0; 4]);
    assert_eq!(run(tx), Err(Error::Sys(SysError::Encoding)));
}

#[test]
fn coordinator_with_coordinate_redeemer_may_spend() {
    let mut tx = one_channel(1, vec![hash(9)]);
    tx.witnesses = vec![witness(Some(b"coordinate"))];
    assert_eq!(run(tx), Ok(()));
}

#[test]
fn coordinate_redeemer_without_configured_coordinator_is_refused() {
    let mut tx = one_channel(0, vec![hash(9)]);
    tx.witnesses = vec![witness(Some(b"coordinate"))];
    assert_eq!(run(tx), Err(Error::NotParticipant));
}

#[test]
fn coordinator_without_coordinate_redeemer_is_refused() {
    let refused: Vec<Vec<Result<Vec<u8>, Refusal>>> = vec![
        vec![],
        vec![witness(None)],
        vec![witness(Some(b"fund"))],
        vec![witness(Some(b"gibberish"))],
        vec![Ok(vec![1, 2, 3])],
        vec![Err(Refusal::Other(5))],
    ];
    for witnesses in refused {
        let mut tx = one_channel(1, vec![hash(9)]);
        tx.witnesses = witnesses;
        assert_eq!(run(tx), Err(Error::NotParticipant));
    }
}

#[test]
fn participant_needs_no_witness() {
    let mut tx = one_channel(1, vec![hash(2)]);
    tx.witnesses = vec![witness(Some(b"gibberish"))];
    assert_eq!(run(tx), Ok(()));
}

#[test]
fn each_channel_of_the_group_is_checked() {
    let two = |second: u8, locks: Vec<Result<Vec<u8>, Refusal>>| Tx {
        asked: Arc::new(Mutex::new(vec![])),
        script: script(&[]),
        locks,
        types: vec![script(&[1, 2, 0]), script(&[3, 4, second])],
        witnesses: vec![witness(Some(b"coordinate")), witness(Some(b"fund"))],
    };
    assert_eq!(run(two(0, vec![hash(1)])), Err(Error::NotParticipant));
    assert_eq!(run(two(0, vec![hash(4), hash(1)])), Ok(()));
    // The redeemer of another input does not count.
    assert_eq!(run(two(1, vec![hash(1)])), Err(Error::NotParticipant));
    let mut tx = two(1, vec![hash(1)]);
    tx.witnesses[1] = witness(Some(b"coordinate"));
    assert_eq!(run(tx), Ok(()));
}

#[test]
fn first_refusal_of_the_group_counts() {
    let mut tx = one_channel(0, vec![hash(9)]);
    tx.types.push(Err(Refusal::ItemMissing));
    assert_eq!(run(tx), Err(Error::NotParticipant));
}

#[test]
fn empty_group_is_accepted() {
    let mut tx = one_channel(0, vec![]);
    tx.types = vec![];
    assert_eq!(run(tx), Ok(()));
}

#[test]
fn long_args_are_read_whole() {
    let mut args = vec![1, 2, 0];
    args.resize(1000, 7);
    let mut tx = one_channel(0, vec![hash(2)]);
    tx.types = vec![script(&args)];
    assert_eq!(run(tx), Ok(()));
}

#[test]
fn exit_codes() {
    assert_eq!(run_to_code(one_channel(0, vec![hash(1)])), 0);
    assert_eq!(run_to_code(one_channel(0, vec![hash(9)])), 13);
    let mut tx = one_channel(0, vec![hash(1)]);
    tx.script = script(&[5]);
    assert_eq!(run_to_code(tx), 11);
    let mut tx = one_channel(0, vec![hash(1)]);
    tx.types = vec![Err(Refusal::ItemMissing)];
    assert_eq!(run_to_code(tx), 12);
    assert_eq!(run_to_code(one_channel(0, vec![Err(Refusal::ItemMissing)])), 14);
}

#[test]
fn search_for_a_participant() {
    assert_eq!(search(vec![]), Ok(false));
    assert_eq!(search(vec![hash(3), hash(4)]), Ok(false));
    assert_eq!(search(vec![hash(3), hash(2)]), Ok(true));
    assert_eq!(search(vec![hash(1), hash(3)]), Ok(true));
    let mut almost = vec![1; 32];
    almost[31] = 2;
    assert_eq!(search(vec![Ok(almost)]), Ok(false));
}

#[test]
fn search_stops_at_a_participant() {
    assert_eq!(search(vec![hash(1), Err(Refusal::ItemMissing)]), Ok(true));
    assert_eq!(
        search(vec![Err(Refusal::ItemMissing), hash(1)]),
        Err(Error::Sys(SysError::ItemMissing))
    );
}

#[test]
fn search_ends_with_the_inputs() {
    assert_eq!(search(vec![Err(Refusal::IndexOutOfBound), hash(1)]), Ok(false));
}

#[test]
fn search_passes_errors_on() {
    let refusals = vec![
        (Refusal::ItemMissing, SysError::ItemMissing),
        (Refusal::SliceOutOfBound, SysError::Encoding),
        (Refusal::WrongFormat, SysError::Unknown(4)),
        (Refusal::WaitFailure, SysError::WaitFailure),
        (Refusal::InvalidFd, SysError::InvalidFd),
        (Refusal::OtherEndClosed, SysError::OtherEndClosed),
        (Refusal::MaxVmsSpawned, SysError::MaxVmsSpawned),
        (Refusal::MaxFdsCreated, SysError::MaxFdsCreated),
        (Refusal::Other(99), SysError::Unknown(99)),
    ];
    for (refusal, expected) in refusals {
        assert_eq!(search(vec![hash(9), Err(refusal)]), Err(Error::Sys(expected)));
    }
    assert_eq!(search(vec![Ok(vec![1; 40])]), Err(Error::Sys(SysError::LengthNotEnough(40))));
}

#[test]
fn search_treats_the_parties_alike() {
    on(one_channel(0, vec![hash(2)]), |vm| {
        assert_eq!(verify_is_participant(vm, &[1; 32], &[2; 32]), Ok(true));
        assert_eq!(verify_is_participant(vm, &[2; 32], &[1; 32]), Ok(true));
    });
}

#[test]
fn search_with_more_inputs() {
    assert_eq!(search(vec![hash(1)]), Ok(true));
    assert_eq!(search(vec![hash(8), hash(9), hash(1)]), Ok(true));
}

#[test]
fn witness_of_the_asked_input_is_read() {
    let mut tx = one_channel(1, vec![]);
    tx.witnesses = vec![witness(Some(b"fund")), witness(Some(b"coordinate"))];
    on(tx, |vm| {
        assert!(!witness_is_coordinate(vm, 0, &decode_witness));
        assert!(witness_is_coordinate(vm, 1, &decode_witness));
        assert!(!witness_is_coordinate(vm, 2, &decode_witness));
    });
}

#[test]
fn args_of_the_script_are_asked_for_first_and_once() {
    let (outcome, asked) = run_and_ask(one_channel(0, vec![hash(1)]));
    assert_eq!(outcome, Ok(()));
    assert_eq!(
        asked,
        vec![Question::Script, Question::Type(0), Question::Lock(0), Question::Type(1)]
    );
}

#[test]
fn refused_args_end_the_run() {
    let mut tx = one_channel(0, vec![hash(1)]);
    tx.script = script(&[0]);
    assert_eq!(run_and_ask(tx), (Err(Error::PCLSWithArgs), vec![Question::Script]));
}

#[test]
fn witness_is_asked_for_after_the_inputs() {
    let mut tx = one_channel(1, vec![hash(9)]);
    tx.witnesses = vec![witness(Some(b"coordinate"))];
    let (outcome, asked) = run_and_ask(tx);
    assert_eq!(outcome, Ok(()));
    assert_eq!(
        asked,
        vec![
            Question::Script,
            Question::Type(0),
            Question::Lock(0),
            Question::Lock(1),
            Question::Witness(0),
            Question::Type(1),
        ]
    );
}

#[test]
fn witness_is_not_asked_for_without_a_coordinator() {
    let mut tx = one_channel(0, vec![hash(9)]);
    tx.witnesses = vec![witness(Some(b"coordinate"))];
    let (outcome, asked) = run_and_ask(tx);
    assert_eq!(outcome, Err(Error::NotParticipant));
    assert_eq!(
        asked,
        vec![Question::Script, Question::Type(0), Question::Lock(0), Question::Lock(1)]
    );
}
