[package]
name = "nucypher_core"
version = "0.1.0"
edition = "2021"
publish = false

[dependencies]
umbral-pre = { version = "=0.11.0", features = ["default-serialization"] }
sha3 = "=0.10.9"
