[package]
name = "aether_core"
version = "0.1.0"
edition = "2021"
publish = false

[dependencies]
regex = "1"
aes-gcm = "0.10"
base64 = "0.22"
uuid = { version = "1", features = ["v4"] }
