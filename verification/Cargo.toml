[package]
name = "ream_da"
version = "0.1.0"
edition = "2021"
publish = false

[dependencies]
tokio = { version = "=1.54.1", features = ["sync", "rt", "macros", "time"] }
alloy-primitives = { version = "=1.7.3", features = ["serde"] }
serde = { version = "=1.0.229", features = ["derive"] }
serde_json = "=1.0.154"
thiserror = "=2.0.21"
tracing = "=0.1.44"
anyhow = "=1.0.104"
clap = { version = "=4.6.7", features = ["derive"] }
actix-web = "=4.18.1"
ethereum_ssz = "=0.10.4"
ethereum_ssz_derive = "=0.10.4"
ssz_types = "=0.14.1"
tree_hash = "=0.12.1"
redb = "=4.4.0"
