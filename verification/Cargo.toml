[package]
name = "mori-ear"
version = "0.1.0"
edition = "2021"
publish = false

[dependencies]
cpal = "0.15"
anyhow = "1"
ashpd = { version = "=0.13.13", features = ["global_shortcuts"] }
futures-util = "0.3"
global-hotkey = "0.6"
hound = "=3.5.1"
libc = "0.2"
parking_lot = "0.12"
reqwest = { version = "0.12", default-features = false, features = ["json", "multipart", "rustls-tls"] }
serde = { version = "1", features = ["derive"] }
serde_json = "=1.0.154"
single-instance = "0.3"
tempfile = "3"
tiny_http = "0.12"
tokio = { version = "1", features = ["full"] }
tracing = "0.1"
tracing-subscriber = { version = "0.3", features = ["env-filter"] }
webrtc-vad = "=0.4.0"
