[package]
name = "bevy_websocket_adapter"
version = "0.1.4"
edition = "2021"
publish = false

[dependencies]
serde_json = "1"
serde = { version = "1", features = ["derive"] }
bevy = { version = "0.10", default-features = false }
tokio = { version = "1", features = ["full"] }
tokio-tungstenite = "0.18"
tungstenite = "0.18"
futures = "0.3"
crossbeam-channel = "0.5"
url = "2"
uuid = "1"
anyhow = "1"
thiserror = "1"
tracing = "0.1"
