[package]
name = "pactience"
version = "0.1.3"
edition = "2021"
publish = false

[dependencies]
clap = { version = "4", features = ["derive"] }
flate2 = "1"
serde = { version = "1", features = ["derive"] }
serde_json = "1"
tar = "0.4"
thiserror = "2"
toml = "0.8"
ureq = "3"
zstd = "0.13"
