[package]
name = "webrtc_transfer"
version = "0.1.0"
edition = "2021"
publish = false

[dependencies]
anyhow = "1"
base64 = "0.22"
brotli = "7"
bytes = "1"
serde = { version = "1", features = ["derive"] }
serde_json = "1"
tokio = { version = "1", features = ["macros", "rt", "sync"] }
tracing = "0.1"
uuid = { version = "1", features = ["v4"] }
webrtc = "0.12"
