[package]
name = "resigner"
version = "0.1.0"
edition = "2021"
publish = false

[dependencies]
anyhow = "1"
base64 = "=0.13.1"
bs58 = "0.5"
clap = "=2.34.0"
ed25519-dalek = "=2.2.0"
log = "0.4"
serde = { version = "1", features = ["derive"] }
serde_json = "1"
serde_yaml = "0.9"
simplelog = "=0.12.2"
