[package]
name = "reversi"
version = "0.1.0"
edition = "2021"
publish = false

[dependencies]
sha3 = "=0.10.9"
base64 = "=0.22.1"
serde = { version = "=1.0.229", features = ["derive"] }
serde_json = "=1.0.154"
serde_with = "=3.24.0"
actix-web = "=4.18.1"
env_logger = "=0.11.11"
log = "=0.4.35"
uuid = { version = "=1.29.0", features = ["v4"] }
fastrand = "=2.5.0"
url = "=2.5.8"
