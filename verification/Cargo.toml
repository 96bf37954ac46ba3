[package]
name = "cw_sdk"
version = "0.1.0"
edition = "2021"
publish = false

[dependencies]
sha2 = "0.10"
bech32 = "0.9"
hex = "0.4"
secp256k1 = { version = "0.24", features = ["bitcoin_hashes"] }
serde = { version = "1", features = ["derive"] }
serde_json = "1"
thiserror = "1"
cosmwasm-std = "1.1"
cosmwasm-vm = "1.1"
merk = "*"
tendermint-abci = "0.28"
tendermint-proto = "0.28"
structopt = "0.3"
tracing-subscriber = "0.3"
