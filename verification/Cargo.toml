[package]
name = "assistant_core"
version = "0.1.0"
edition = "2021"
publish = false

[dependencies]
anyhow = "=1.0.104"
base64 = "=0.21.7"
futures = "=0.3.34"
hex = "=0.4.3"
macos-accessibility-client = "=0.0.2"
mime_guess = "=2.0.5"
regex = "=1.13.1"
reqwest = { version = "=0.11.27", default-features = false, features = ["json", "stream", "rustls-tls"] }
rusqlite = "=0.37.0"
serde = { version = "=1.0.229", features = ["derive"] }
serde_json = "=1.0.154"
sha2 = "=0.10.9"
tokio = { version = "=1.54.1", features = ["macros", "rt-multi-thread", "sync"] }
tokio-util = "=0.7.20"
