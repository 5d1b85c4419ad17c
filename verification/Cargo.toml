[package]
name = "listen_diffs"
version = "0.1.0"
edition = "2021"
publish = false

[dependencies]
anyhow = "=1.0.104"
reqwest = { version = "=0.11.27", default-features = false }
solana-sdk = "=2.0.25"
solana-transaction-status = "=2.0.25"
spl-associated-token-account = "=4.0.0"
