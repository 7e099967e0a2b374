[package]
name = "cdb_rs"
version = "0.1.0"
edition = "2021"
publish = false

[dependencies]
bytes = "0.4"
memmap = "0.7"
failure = "0.1"
failure_derive = "0.1"
log = "0.4"
env_logger = "*"
