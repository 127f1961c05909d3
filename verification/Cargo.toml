[package]
name = "libblood"
version = "0.1.0"
edition = "2021"
publish = false

[dependencies]
rand = "=0.8.8"
rand_chacha = "=0.3.1"
sha3 = "0.10"
ahash = "=0.8.12"
serde = { version = "=1.0.229", features = ["derive"] }
serde_json = "=1.0.154"
anyhow = "=1.0.104"
