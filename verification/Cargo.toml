[package]
name = "gitter_core"
version = "0.1.0"
edition = "2021"
publish = false

[dependencies]
curl = "0.4"
serde = { version = "1", features = ["derive"] }
serde_json = "1"
yaml-rust = "0.4"
