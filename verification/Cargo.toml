[package]
name = "http_server"
version = "0.1.0"
edition = "2021"
publish = false

[dependencies]
anyhow = "*"
bytes = "*"
tokio = { version = "*", features = ["net", "io-util", "rt-multi-thread", "macros"] }
