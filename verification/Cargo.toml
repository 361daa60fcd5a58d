[package]
name = "tcpclient"
version = "0.1.0"
edition = "2021"
publish = false

[dependencies]
serde = { version = "1", features = ["derive"] }
socket2 = "0.5"
tokio = { version = "1", features = ["net", "io-util", "sync", "time", "rt", "macros"] }
tauri = { version = "2", default-features = false }
