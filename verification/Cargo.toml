[package]
name = "tracker"
version = "0.1.0"
edition = "2021"
publish = false

[dependencies]
bitcoincore-rpc = "*"
clap = { version = "4", features = ["derive"] }
serde = { version = "1", features = ["derive"] }
serde_cbor = "0.11"
tokio = { version = "1", features = ["full"] }
tokio-socks = "*"
tracing = "0.1"
tracing-subscriber = "0.3"
