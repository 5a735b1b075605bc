[package]
name = "fcp_rust"
version = "0.1.0"
edition = "2021"
publish = false

[dependencies]
url = "2"
serde = { version = "1", features = ["derive"] }
serde_json = "1"
schemars = "0.8"
tokio = { version = "1", features = ["macros", "rt-multi-thread", "sync", "io-std", "io-util"] }
tracing = "0.1"
tracing-subscriber = "0.3"
