[package]
name = "evogrid"
version = "0.1.0"
edition = "2021"
publish = false

[dependencies]
oorandom = "11"
serde = { version = "1", features = ["derive"] }
serde_json = "1"
