[package]
name = "utxo_node"
version = "0.1.0"
edition = "2021"
publish = false

[dependencies]
bs58 = "=0.5.1"
rand = "=0.8.8"
ring = "0.17"
rust-crypto = "=0.2.36"
serde = { version = "=1.0.229", features = ["derive"] }
typedb = "=0.9.0"

[dev-dependencies]
bincode = "=1.3.3"
