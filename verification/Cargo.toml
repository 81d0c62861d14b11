[package]
name = "zkvm_edwards"
version = "0.1.0"
edition = "2021"
publish = false

[dependencies]
crypto-bigint = "*"
num-bigint = "=0.5.1"

[dev-dependencies]
curve25519-dalek = "=5.0.0"
rand = "=0.10.3"
