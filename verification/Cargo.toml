[package]
name = "boxtree"
version = "0.1.0"
edition = "2021"
publish = false

[dependencies]
xml = "=1.4.0"
ron = "=0.12.2"
serde = { version = "=1.0.229", features = ["derive"] }
