[package]
name = "quill_core"
version = "0.1.0"
edition = "2021"
publish = false

[dependencies]
axum = "=0.8.9"
chrono = "=0.4.45"
dashmap = "=6.2.1"
flume = "=0.12.0"
libc = "=0.2.191"
matchit = "=0.8.4"
once_cell = "=1.21.4"
regex = "=1.13.1"
serde = { version = "=1.0.229", features = ["derive"] }
serde_json = "=1.0.154"
socket2 = { version = "=0.6.5", features = ["all"] }
sonic-rs = "=0.3.17"
tokio = { version = "=1.54.1", features = ["full"] }
