[package]
name = "storage_proofs"
version = "0.1.0"
edition = "2021"
publish = false

[dependencies]
fil-sapling-crypto = "=0.7.0"
paired = "=0.20.1"
fff = "=0.2.3"
