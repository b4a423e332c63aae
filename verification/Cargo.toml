[package]
name = "ferroleaf"
version = "0.1.0"
edition = "2021"
publish = false

[dependencies]
regex = "1"
flate2 = "1"
serde = { version = "1", features = ["derive"] }
serde_json = "1"
anyhow = "1"
walkdir = "2"
tempfile = "3"
tokio = { version = "1", features = ["process", "fs", "rt-multi-thread", "sync"] }
env_logger = { version = "0.11", default-features = false }
iced = { version = "0.13", default-features = false, features = ["tiny-skia", "tokio", "advanced"] }
