[package]
name = "clarity_effects"
version = "0.1.0"
edition = "2021"
publish = false

[dependencies]
regex = "1"
rusqlite = { version = "0.31", features = ["bundled"] }
serde_json = "1"
