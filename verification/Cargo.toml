[package]
name = "perun_channel_lockscript"
version = "0.1.0"
edition = "2021"
publish = false

[dependencies]
ckb-std = { version = "=1.1.0", default-features = false, features = ["allocator", "ckb-types"] }

[dev-dependencies]
ckb-std = { version = "=1.1.0", default-features = false, features = ["stub-syscalls"] }
