[package]
name = "omo"
version = "0.1.0"
edition = "2021"
publish = false

[dependencies]
rlp = "=0.6.1"
triehash = "=0.8.4"
keccak-hasher = "=0.15.3"
serde = { version = "1", features = ["derive"] }
serde_json = "1"
unicorn-engine = "=2.1.5"
