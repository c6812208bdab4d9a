[package]
name = "xvnc_viewer"
version = "0.1.0"
edition = "2021"
publish = false

[dependencies]
uuid = { version = "=1.29.0", features = ["v4"] }
serde = { version = "=1.0.229", features = ["derive"] }
tokio = { version = "=1.54.1", features = ["net", "sync", "time", "io-util", "macros", "rt", "rt-multi-thread"] }
tokio-tungstenite = "=0.30.0"
futures-util = { version = "=0.3.34", features = ["sink"] }
tauri = { version = "2", default-features = false }
tauri-plugin-global-shortcut = "2"
