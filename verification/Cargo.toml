[package]
name = "all-llama-proxy"
version = "0.1.0"
edition = "2021"
publish = false

[dependencies]
axum = "0.8"
bincode = { version = "2", features = ["serde"] }
chrono = "0.4"
futures-util = "0.3"
libc = "0.2"
listenfd = "1"
reqwest = { version = "0.12", default-features = false, features = ["stream"] }
serde = { version = "1", features = ["derive"] }
serde_json = "1"
tokio = { version = "1", features = ["full"] }
tokio-stream = "0.1"
tracing = "0.1"
