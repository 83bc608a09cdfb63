[package]
name = "miden-client-tools"
version = "0.1.0"
edition = "2021"
publish = false

[dependencies]
miden-assembly = "=0.15.0"
miden-client = { version = "=0.10.2", features = ["sqlite", "tonic"] }
miden-crypto = "=0.14.1"
miden-lib = "=0.10.1"
miden-objects = "=0.10.1"
rand = "=0.9.5"
serde = "1"
tokio = { version = "1", features = ["fs", "macros", "rt-multi-thread", "time"] }
