[package]
name = "netter"
version = "0.1.0"
edition = "2021"
publish = false

[dependencies]
crc32fast = "=1.5.4"
base64 = "=0.22.1"
serde = { version = "=1.0.229", features = ["derive"] }
serde_json = "=1.0.154"
rand = "=0.9.5"
libloading = "0.8"
serde_urlencoded = "0.7"
