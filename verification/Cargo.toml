[package]
name = "eva01"
version = "0.1.0"
edition = "2021"
publish = false

[dependencies]
anchor-spl = { version = "0.31", default-features = false, features = ["associated_token"] }
anyhow = "1"
base64 = "0.22"
bincode = "1.3"
fixed = "1"
log = "0.4"
serde = { version = "1", features = ["derive"] }
serde_json = "1"
solana-program = "2.2"
solana-sdk = { version = "2.2", default-features = false, features = ["full"] }
spl-token = { version = "7", default-features = false, features = ["no-entrypoint"] }
