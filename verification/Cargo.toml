[package]
name = "orderbook_rs"
version = "0.1.0"
edition = "2021"
publish = false

[dependencies]
pricelevel = "=0.10.2"
serde = { version = "=1.0.229", features = ["derive"] }
serde_json = "=1.0.154"
thiserror = "=2.0.21"
tracing = "=0.1.44"
tokio = { version = "=1.54.1", features = ["rt", "sync", "time", "macros"] }
async-nats = "=0.51.0"
bytes = "=1.12.1"
fix-codec = "=0.1.1"
