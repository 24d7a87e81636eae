[package]
name = "pain"
version = "0.1.0"
edition = "2021"
publish = false

[dependencies]
cosmic-text = "*"
serde = { version = "1", features = ["derive"] }
toml = "*"
