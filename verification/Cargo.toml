[package]
name = "ore_miner"
version = "0.1.0"
edition = "2021"
publish = false

[dependencies]
equix = "0.1"
solana-program = "=1.18.26"
ore-api = "=2.7.0"
rand = "=0.8.8"
num_cpus = "=1.16.0"
colored = "=2.2.0"
bs58 = "=0.4.0"
serde = { version = "=1.0.229", features = ["derive"] }
