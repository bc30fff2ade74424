[package]
name = "token_users"
version = "0.1.0"
edition = "2021"
publish = false

[dependencies]
anyhow = "1"
csv = "1"
dotenv = "0.15"
serde = { version = "1", features = ["derive"] }
solana-account-decoder = "1.18"
solana-sdk = "1.18"
spl-token = "=4.0.0"
