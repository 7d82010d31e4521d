[package]
name = "any_video"
version = "0.1.0"
edition = "2021"
publish = false

[dependencies]
anyhow = "1"
base64 = "0.22"
libc = "0.2"
reqwest = { version = "0.12", default-features = false, features = ["json", "rustls-tls"] }
serde = { version = "1", features = ["derive"] }
serde_json = "1"
tauri = { version = "2", default-features = false }
tokio = { version = "1", features = ["sync", "process", "io-util", "time", "macros", "rt-multi-thread"] }
tracing = "0.1"
url = "2"
uuid = { version = "1", features = ["v4"] }
which = "*"
