[package]
name = "airaa_chat"
version = "0.1.0"
edition = "2021"
publish = false

[dependencies]
aes-gcm = "0.10"
base64 = "0.22"
pbkdf2 = "0.12"
sha2 = "0.10"
serde = { version = "1", features = ["derive"] }
serde_json = "1"
tokio = { version = "1", features = ["full"] }
tokio-socks = "0.5"
crossterm = "0.28"
ratatui = "0.28"
reqwest = { version = "0.12", default-features = false, features = ["json"] }
