[package]
name = "dragonfly"
version = "0.1.0"
edition = "2021"
publish = false

[dependencies]
aes-gcm = "0.10"
base64 = "0.22"
sha2 = "0.10"
md-5 = "0.10"
hex = "0.4"
nucleo-matcher = "0.3"
serde = { version = "1", features = ["derive"] }
serde_json = "1"
dirs = "*"
rand = "0.8"
uuid = { version = "1", features = ["v4"] }
