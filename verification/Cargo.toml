[package]
name = "bikechain"
version = "0.1.0"
edition = "2021"
publish = false

[dependencies]
sha2 = "0.8"
rand = "0.7"
rust_sodium = "0.10"
base64 = "0.11"
serde = { version = "1", features = ["derive"] }
serde_json = "1"
bincode = "1"
bytes = "0.5"
futures = "0.3"
tokio = { version = "0.2", features = ["full"] }
tokio-util = { version = "0.2", features = ["codec"] }
rocket = "0.4"
