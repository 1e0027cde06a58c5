[package]
name = "conduit_articles"
version = "0.1.0"
edition = "2021"
publish = false

[dependencies]
slug = "*"
chrono = "*"
serde = { version = "*", features = ["derive"] }
serde_json = "*"
