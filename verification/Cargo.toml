[package]
name = "ledger_store"
version = "0.1.0"
edition = "2021"
publish = false

[dependencies]
rocksdb = { version = "*", default-features = false }
bincode = "1"
prost = "*"
serde = "1"

[dev-dependencies]
tempfile = "3"
