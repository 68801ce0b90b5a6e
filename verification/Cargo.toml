[package]
name = "wallet_core"
version = "0.1.0"
edition = "2021"
publish = false

[dependencies]
bdk = { version = "=0.28.2", default-features = false, features = ["std", "keys-bip39"] }
base64 = "=0.13.1"
anyhow = "=1.0.104"
serde_json = "=1.0.154"
