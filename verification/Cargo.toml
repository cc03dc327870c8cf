[package]
name = "meshcore-rs"
version = "0.1.0"
edition = "2021"
publish = false

[dependencies]
bytes = "1"
tokio = { version = "1", features = ["full"] }
tokio-serial = "5"
btleplug = "0.11"
futures = "0.3"
thiserror = "2"
tokio-stream = { version = "0.1", features = ["sync"] }
tracing = "0.1"
uuid = "1"
