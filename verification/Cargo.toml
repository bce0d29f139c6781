[package]
name = "room_runtime"
version = "0.1.0"
edition = "2021"
publish = false

[dependencies]
async-trait = "=0.1.92"
crossbeam-channel = "=0.5.17"
serde = { version = "=1.0.229", features = ["derive"] }
bevy = { version = "=0.19.1", default-features = false }
webrtc = "=0.21.0"
tokio = { version = "=1.53.2", features = ["rt"] }
