[package]
name = "utxo"
version = "0.1.0"
edition = "2021"
publish = false

[dependencies]
parity-scale-codec = "=3.7.5"
sp-core-hashing = "=16.0.0"
schnorrkel = "=0.11.5"
serde = { version = "=1.0.229", features = ["derive"] }
