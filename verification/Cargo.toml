[package]
name = "pigeon"
version = "0.1.0"
edition = "2021"
publish = false

[dependencies]
aes = "0.8"
cfb8 = "0.8"
cesu8 = "1"
flate2 = "1"
indexmap = "2"
bytes = "1"
serde = { version = "1", features = ["derive"] }
serde_json = "1"
thiserror = "1"
anyhow = "1"
tokio = { version = "1", features = ["full"] }
tokio-util = { version = "0.7", features = ["codec"] }
futures = "0.3"
tracing = "0.1"
parking_lot = "0.12"
uuid = { version = "1", features = ["serde"] }
