[package]
name = "mantis_hybrid"
version = "0.1.0"
edition = "2021"
publish = false

[dependencies]
aes-gcm = "0.10"
anyhow = "1"
futures-util = "0.3"
hkdf = "0.12"
hmac = "0.12"
reqwest = { version = "0.12", default-features = false, features = ["json"] }
rusqlite = "0.31"
serde_json = "1"
sha2 = "0.10"
tokio = { version = "1", features = ["full"] }
tokio-tungstenite = "0.24"
tokio-util = "0.7"
