[package]
name = "stark"
version = "0.1.0"
edition = "2021"
publish = false

[dependencies]
base64 = "=0.21.7"
chrono = "=0.4.45"
hmac-sha256 = { version = "=1.1.15", features = ["traits010"] }
rsa = { version = "=0.9.10", features = ["sha2"] }
serde = { version = "=1.0.229", features = ["derive"] }
serde_json = "=1.0.154"
tokio = { version = "=1.54.1", features = ["full"] }
reqwest = { version = "=0.11.27", default-features = false, features = ["json", "rustls-tls"] }
ngrok = { version = "=0.13.1", features = ["hyper"] }
color-eyre = "=0.6.5"
lazy_static = "=1.5.1"
