[package]
name = "percolator"
version = "0.1.0"
edition = "2021"
publish = false

[dependencies]
anyhow = "1"
chrono = "0.4"
clap = { version = "4", features = ["derive"] }
colored = "2"
env_logger = "0.11"
solana-sdk = "2"
tokio = { version = "1", features = ["macros", "rt-multi-thread", "time"] }
