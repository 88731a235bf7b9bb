[package]
name = "open_agent"
version = "0.1.0"
edition = "2021"
publish = false

[dependencies]
md5 = "=0.7.0"
url = "=2.5.8"
serde_json = "=1.0.154"
serde = { version = "=1.0.229", features = ["derive"] }
uuid = { version = "=1.29.0", features = ["v4", "serde"] }
chrono = { version = "=0.4.45", features = ["serde"] }
tokio = { version = "=1.54.1", features = ["full"] }
axum = { version = "=0.7.9", features = ["ws", "multipart"] }
futures = "=0.3.34"
portable-pty = "=0.8.1"
reqwest = { version = "=0.12.28", default-features = false, features = ["rustls-tls"] }
anyhow = "=1.0.104"
tracing = "=0.1.44"
tokio-util = { version = "=0.7.20", features = ["io"] }
jsonwebtoken = "9"
