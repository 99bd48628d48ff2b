[package]
name = "subclient"
version = "0.1.0"
edition = "2021"
publish = false

[dependencies]
sp-core = "=43.0.0"
sp-runtime = "=49.0.0"
sp-crypto-hashing = "=0.1.0"
parity-scale-codec = "=3.7.5"
