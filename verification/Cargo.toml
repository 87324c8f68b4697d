[package]
name = "pulsar_reflection"
version = "0.1.0"
edition = "2021"
publish = false

[dependencies]
uuid = { version = "1", features = ["v4"] }
serde_json = "1"
inventory = "0.3"
once_cell = "1"
