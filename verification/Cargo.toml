[package]
name = "microflow"
version = "0.1.0"
edition = "2021"
publish = false

[dependencies]
base64 = "=0.22.1"
dirs = "=7.0.0"
jsonrpsee = { version = "=0.26.1", features = ["server"] }
serde = { version = "=1.0.229", features = ["derive"] }
serde_json = "=1.0.154"
thiserror = "=1.0.69"
tokio = { version = "=1.54.1", features = ["rt", "fs", "sync"] }
walkdir = "=2.5.0"
