[package]
name = "faithful_car"
version = "0.1.0"
edition = "2021"
publish = false

[dependencies]
anyhow = "=1.0.104"
bincode = "=1.3.3"
clap = { version = "=4.6.7", features = ["derive"] }
indicatif = "=0.17.11"
prost = "=0.11.9"
serde = { version = "=1.0.229", features = ["derive"] }
solana-sdk = "=2.0.25"
tokio = { version = "=1.54.1", features = ["fs", "io-util", "macros", "rt-multi-thread"] }
zstd = "=0.13.3"
