[package]
name = "statworks"
version = "0.1.0"
edition = "2021"
publish = false

[dependencies]
worker = "*"
serde = { version = "*", features = ["derive"] }
