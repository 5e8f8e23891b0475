[package]
name = "meshcore"
version = "0.1.0"
edition = "2021"
publish = false

[dependencies]
bytes = "1"
futures = "0.3"
tokio = { version = "1", features = ["io-util", "net", "rt", "sync", "time"] }
tokio-serial = { version = "5", default-features = false }
tokio-stream = { version = "0.1", features = ["sync"] }
tracing = "0.1"
