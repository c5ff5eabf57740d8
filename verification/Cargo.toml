[package]
name = "httpwire"
version = "0.1.0"
edition = "2021"
publish = false

[dependencies]
anyhow = "1"
bytes = "1"
itertools = "0.14"
tokio = { version = "1", features = ["full"] }
