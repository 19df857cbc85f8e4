[package]
name = "workflow"
version = "0.1.0"
edition = "2021"
publish = false

[dependencies]
anyhow = "=1.0.104"
axum = "=0.6.20"
serde = { version = "=1.0.229", features = ["derive"] }
serde_json = "=1.0.151"
sled = "=0.34.7"
tokio = { version = "=1.53.2", features = ["rt-multi-thread", "macros"] }
uuid = { version = "=1.27.0", features = ["v4"] }
walkdir = "=2.5.0"
wasmtime = "=48.0.5"
