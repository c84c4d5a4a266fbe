[package]
name = "fivemenu"
version = "0.1.0"
edition = "2021"
publish = false

[dependencies]
anyhow = "1"
dirs = "5"
env_logger = "0.10"
fuzzy-matcher = "0.3"
iced = { version = "0.10", default-features = false }
serde = { version = "1", features = ["derive"] }
toml = "0.8"
