[package]
name = "solana_vanity"
version = "0.1.0"
edition = "2021"
publish = false

[dependencies]
bs58 = "0.5"
clap = { version = "4", features = ["derive"] }
colored = "2"
crossbeam-channel = "0.5"
ed25519-dalek = "1"
num_cpus = "1"
rand = "0.7"
rayon = "1"
serde_json = "1"
