[package]
name = "rinova_void"
version = "0.1.0"
edition = "2021"
publish = false

[dependencies]
base64 = "=0.22.1"
image = "=0.25.10"
arboard = "=3.7.0"
serde = { version = "=1.0.229", features = ["derive"] }
serde_json = "=1.0.154"
libc = "=0.2.191"
log = "=0.4.35"
tokio = { version = "=1.54.1", features = ["time", "rt"] }
rinova-proxy-sdk = "1"
