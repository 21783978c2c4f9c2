[package]
name = "shielded_tx"
version = "0.1.0"
edition = "2021"
publish = false

[dependencies]
blake2b_simd = "=1.0.5"
rand = "=0.8.8"
