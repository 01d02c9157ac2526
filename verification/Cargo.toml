[package]
name = "collidervm_toy"
version = "0.1.0"
edition = "2021"
publish = false

[dependencies]
anyhow = "=1.0.104"
bitcoin = "=0.32.102"
bitcoin_hashes = "=0.14.101"
bitcoincore-rpc = "0.19"
blake3 = "=1.8.7"
clap = { version = "=4.6.7", features = ["derive"] }
indicatif = "=0.17.11"
secp256k1 = "=0.29.1"
