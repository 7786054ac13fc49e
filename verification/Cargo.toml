[package]
name = "snarkvm_app"
version = "0.1.0"
edition = "2021"
publish = false

[dependencies]
anyhow = "=1.0.104"
bincode = "=1.3.3"
itertools = "=0.10.5"
log = "=0.4.34"
rand = "=0.8.8"
serde = { version = "=1.0.229", features = ["derive"] }
serde_json = "=1.0.154"
snarkvm = "=0.9.16"
tendermint = "=0.28.0"
tendermint-abci = "=0.28.0"
tendermint-proto = "=0.28.0"
tracing = "=0.1.44"
uuid = { version = "=1.29.0", features = ["v4"] }
