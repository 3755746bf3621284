[package]
name = "utxo_ledger"
version = "0.1.0"
edition = "2021"
publish = false

[dependencies]
hex = "*"
sha2 = "*"
ripemd = "*"
k256 = "*"
base58 = "*"
uuid = { version = "*", features = ["v4"] }
chrono = "*"
rand_core = { version = "0.6", features = ["getrandom"] }
neo4rs = "*"
tokio = { version = "*", features = ["macros", "rt-multi-thread"] }
