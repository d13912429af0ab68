[package]
name = "rbattle"
version = "0.1.0"
edition = "2021"
publish = false

[dependencies]
rand = { version = "0.5", default-features = false }
serde = { version = "1", features = ["derive"] }
serde_json = "1"
bytes = "0.4"
futures = "0.1"
tokio-codec = "0.1"
tokio-core = "0.1"
tokio-io = "0.1"
tokio-proto = "0.1"
tokio-service = "0.1"
