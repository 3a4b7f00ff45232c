# perun-channel-lockscript

The lock script of Perun channel cells on CKB, verified with Verus.

- `src/` is the script. `lock.rs` holds `program_entry`, `main`, `verify_is_participant` and
  `witness_is_coordinate`; `vm.rs` the system calls, made through `ckb-std`, with a ghost transcript
  of every question and answer; `run.rs` which questions a run puts and how its outcome follows from
  the answers; `rule.rs` the rule that the script enforces on a transaction; `laws.rs` what is
  proved of runs and of the rule.
- `app/` is the contract: the entry point and allocator of `ckb-std`, and the Molecule types and
  exit codes of `perun-common`.
- `tests/` runs the script on transactions, with the system calls of `ckb-std` answered by the
  test (its feature `stub-syscalls`).
