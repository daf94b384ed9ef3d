[package]
name = "bevy_simple_websockets"
version = "0.1.0"
edition = "2021"
publish = false

[dependencies]
bevy = { version = "0.9", default-features = false }
bincode = "1"
crossbeam-channel = "0.5"
dashmap = "5"
downcast-rs = "1"
futures-util = "0.3"
serde = { version = "1", features = ["derive"] }
tokio = { version = "1", features = ["rt-multi-thread", "net", "sync"] }
tokio-tungstenite = "0.18"
tungstenite = "0.18"
typetag = "0.2"
url = "2"
