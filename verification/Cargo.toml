[package]
name = "tdo_core"
version = "0.2.0"
edition = "2021"
publish = false

[dependencies]
json = "0.12"
serde = { version = "1", features = ["derive"] }
serde_json = "1"
