//! The questions that the script puts to the CKB-VM, and the record of the answers.
use ckb_std::ckb_constants::Source as List;
use ckb_std::ckb_types::prelude::Unpack;
use ckb_std::error::SysError as Refusal;
use ckb_std::high_level;
use vstd::prelude::*;

use crate::error::SysError;

verus! {

/// The list of cells that an index counts in. Each variant stands for the variant of the same
/// name of `ckb_std::ckb_constants::Source`.
#[derive(Clone, Copy, Debug, PartialEq, Eq, Structural)]
pub enum Source {
    /// The inputs of the transaction.
    Input,
    /// The inputs of the transaction that the running script locks: the script group.
    GroupInput,
}

/// One question put to the VM, with the answer that came back.
pub enum Exchange {
    /// The args of the running lock script.
    Script { args: Result<Seq<u8>, SysError> },
    /// The args of the type script of a cell; `None` where the cell has no type script.
    CellType { source: Source, index: usize, type_args: Result<Option<Seq<u8>>, SysError> },
    /// The hash of the lock script of a cell.
    LockHash { source: Source, index: usize, lock_hash: Result<Seq<u8>, SysError> },
    /// The field `input_type` of the witness args of an input; `None` where the field is not set.
    InputType { source: Source, index: usize, input_type: Result<Option<Seq<u8>>, SysError> },
}

/// The bytes of an answer.
pub open spec fn bytes_of(reply: Result<Vec<u8>, SysError>) -> Result<Seq<u8>, SysError> {
    match reply {
        Ok(bytes) => Ok(bytes@),
        Err(err) => Err(err),
    }
}

/// The bytes of an answer that may hold none.
pub open spec fn bytes_of_opt(reply: Result<Option<Vec<u8>>, SysError>) -> Result<
    Option<Seq<u8>>,
    SysError,
> {
    match reply {
        Ok(Some(bytes)) => Ok(Some(bytes@)),
        Ok(None) => Ok(None),
        Err(err) => Err(err),
    }
}

/// The bytes of an answer that holds a hash.
pub open spec fn hash_of(reply: Result<[u8; 32], SysError>) -> Result<Seq<u8>, SysError> {
    match reply {
        Ok(hash) => Ok(hash@),
        Err(err) => Err(err),
    }
}

/// The VM that the script runs in. Its view is the transcript: every question that was put to
/// it, in order, with the answer. The transcript is ghost state, with nothing of it left at run
/// time.
///
/// The questions are system calls, made by `ckb_std`. They take any index. What `ckb_std` gives is
/// handed on whole: bytes as they are, at any length, and a refusal as the variant of the same name
/// of [`SysError`]. The transcript holds an answer as handed on. That it is the one `ckb_std` gave
/// is not proved: the answer depends on the transaction that the machine runs on.
///
/// `ckb_std` trusts the lengths that the VM reports: on
/// false ones (a hash that is not 32 bytes long, say) a debug build of it panics.
pub struct Vm {
    transcript: Ghost<Seq<Exchange>>,
}

impl View for Vm {
    type V = Seq<Exchange>;

    closed spec fn view(&self) -> Seq<Exchange> {
        self.transcript@
    }
}

impl Vm {
    /// The VM before the first question.
    pub fn new() -> (vm: Vm)
        ensures
            vm@ == Seq::<Exchange>::empty(),
    {
        Vm { transcript: Ghost(Seq::empty()) }
    }

    /// Asks `ckb_std::high_level::load_script` for the running lock script, of which the args are
    /// handed on, all of them. The answer is up to the transaction: nothing is claimed of it but
    /// that the transcript gains this question with this answer.
    #[verifier::external_body]
    pub(crate) fn load_script_args(&mut self) -> (reply: Result<Vec<u8>, SysError>)
        ensures
            final(self)@ == old(self)@.push(Exchange::Script { args: bytes_of(reply) }),
    {
        Err(match high_level::load_script() {
            Ok(script) => return Ok(script.args().unpack()),
            Err(Refusal::IndexOutOfBound) => SysError::IndexOutOfBound,
            Err(Refusal::ItemMissing) => SysError::ItemMissing,
            Err(Refusal::LengthNotEnough(actual)) => SysError::LengthNotEnough(actual),
            Err(Refusal::Encoding) => SysError::Encoding,
            Err(Refusal::WaitFailure) => SysError::WaitFailure,
            Err(Refusal::InvalidFd) => SysError::InvalidFd,
            Err(Refusal::OtherEndClosed) => SysError::OtherEndClosed,
            Err(Refusal::MaxVmsSpawned) => SysError::MaxVmsSpawned,
            Err(Refusal::MaxFdsCreated) => SysError::MaxFdsCreated,
            Err(Refusal::Unknown(code)) => SysError::Unknown(code),
        })
    }

    /// Asks `ckb_std::high_level::load_cell_type` for the type script of the cell at `index` of
    /// `source`, of which the args are handed on, all of them. The answer is up to the transaction:
    /// nothing is claimed of it but that the transcript gains this question, for this index and
    /// source, with this answer.
    #[verifier::external_body]
    pub(crate) fn load_cell_type_args(&mut self, index: usize, source: Source) -> (reply: Result<
        Option<Vec<u8>>,
        SysError,
    >)
        ensures
            final(self)@ == old(self)@.push(
                Exchange::CellType { source, index, type_args: bytes_of_opt(reply) },
            ),
    {
        let list = match source { Source::Input => List::Input, Source::GroupInput => List::GroupInput };
        Err(match high_level::load_cell_type(index, list) {
            Ok(script) => return Ok(script.map(|script| script.args().unpack())),
            Err(Refusal::IndexOutOfBound) => SysError::IndexOutOfBound,
            Err(Refusal::ItemMissing) => SysError::ItemMissing,
            Err(Refusal::LengthNotEnough(actual)) => SysError::LengthNotEnough(actual),
            Err(Refusal::Encoding) => SysError::Encoding,
            Err(Refusal::WaitFailure) => SysError::WaitFailure,
            Err(Refusal::InvalidFd) => SysError::InvalidFd,
            Err(Refusal::OtherEndClosed) => SysError::OtherEndClosed,
            Err(Refusal::MaxVmsSpawned) => SysError::MaxVmsSpawned,
            Err(Refusal::MaxFdsCreated) => SysError::MaxFdsCreated,
            Err(Refusal::Unknown(code)) => SysError::Unknown(code),
        })
    }

    /// Asks `ckb_std::high_level::load_witness_args` for the witness args of the input at `index`
    /// of `source`, of which the field `input_type` is handed on, whatever the other fields hold.
    /// The answer is up to the transaction: nothing is claimed of it but that the transcript gains
    /// this question, for this index and source, with this answer.
    #[verifier::external_body]
    pub(crate) fn load_witness_input_type(&mut self, index: usize, source: Source) -> (reply: Result<
        Option<Vec<u8>>,
        SysError,
    >)
        ensures
            final(self)@ == old(self)@.push(
                Exchange::InputType { source, index, input_type: bytes_of_opt(reply) },
            ),
    {
        let list = match source { Source::Input => List::Input, Source::GroupInput => List::GroupInput };
        Err(match high_level::load_witness_args(index, list) {
            Ok(witness) => return Ok(witness.input_type().to_opt().map(|bytes| bytes.unpack())),
            Err(Refusal::IndexOutOfBound) => SysError::IndexOutOfBound,
            Err(Refusal::ItemMissing) => SysError::ItemMissing,
            Err(Refusal::LengthNotEnough(actual)) => SysError::LengthNotEnough(actual),
            Err(Refusal::Encoding) => SysError::Encoding,
            Err(Refusal::WaitFailure) => SysError::WaitFailure,
            Err(Refusal::InvalidFd) => SysError::InvalidFd,
            Err(Refusal::OtherEndClosed) => SysError::OtherEndClosed,
            Err(Refusal::MaxVmsSpawned) => SysError::MaxVmsSpawned,
            Err(Refusal::MaxFdsCreated) => SysError::MaxFdsCreated,
            Err(Refusal::Unknown(code)) => SysError::Unknown(code),
        })
    }

    /// Asks `ckb_std::high_level::load_cell_lock_hash` for the lock hash of the cell at `index` of
    /// `source`, which is handed on byte for byte. The answer is up to the transaction: nothing is
    /// claimed of it but that the transcript gains this question, for this index and source, with
    /// this answer.
    #[verifier::external_body]
    pub(crate) fn load_cell_lock_hash(&mut self, index: usize, source: Source) -> (reply: Result<
        [u8; 32],
        SysError,
    >)
        ensures
            final(self)@ == old(self)@.push(
                Exchange::LockHash { source, index, lock_hash: hash_of(reply) },
            ),
    {
        let list = match source { Source::Input => List::Input, Source::GroupInput => List::GroupInput };
        Err(match high_level::load_cell_lock_hash(index, list) {
            Ok(hash) => return Ok(hash),
            Err(Refusal::IndexOutOfBound) => SysError::IndexOutOfBound,
            Err(Refusal::ItemMissing) => SysError::ItemMissing,
            Err(Refusal::LengthNotEnough(actual)) => SysError::LengthNotEnough(actual),
            Err(Refusal::Encoding) => SysError::Encoding,
            Err(Refusal::WaitFailure) => SysError::WaitFailure,
            Err(Refusal::InvalidFd) => SysError::InvalidFd,
            Err(Refusal::OtherEndClosed) => SysError::OtherEndClosed,
            Err(Refusal::MaxVmsSpawned) => SysError::MaxVmsSpawned,
            Err(Refusal::MaxFdsCreated) => SysError::MaxFdsCreated,
            Err(Refusal::Unknown(code)) => SysError::Unknown(code),
        })
    }
}

} // verus!
