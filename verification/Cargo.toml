[package]
name = "clfc"
version = "0.1.0"
edition = "2021"
publish = false

[dev-dependencies]
serde_json = "*"
