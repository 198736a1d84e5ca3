[package]
name = "sysmon"
version = "1.0.0"
edition = "2021"
publish = false

[dependencies]
serde_json = "1"
libc = "0.2"
tungstenite = "0.28"
tokio = { version = "1", features = ["time"] }
tracing = "0.1"
tracing-subscriber = { version = "0.3", features = ["env-filter"] }
