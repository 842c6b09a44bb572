[package]
name = "quil_shard"
version = "0.1.0"
edition = "2021"
publish = false

[dependencies]
anyhow = "1"
async-trait = "0.1"
clap = { version = "4", features = ["derive"] }
commonware-codec = "=2026.10.0"
commonware-consensus = "=2026.10.0"
commonware-cryptography = "=2026.10.0"
commonware-utils = "=2026.10.0"
hex = "=0.4.3"
parking_lot = "0.12"
prost = "0.14"
tokio = { version = "1", features = ["macros", "rt-multi-thread", "time", "sync"] }
tracing = "0.1"
