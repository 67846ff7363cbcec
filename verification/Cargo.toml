[package]
name = "lake"
version = "0.1.0"
edition = "2021"
publish = false

[dependencies]
anyhow = "1"
bytes = "1"
dashmap = "*"
tokio = { version = "1", features = ["fs", "io-util"] }
