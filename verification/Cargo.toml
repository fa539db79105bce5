[package]
name = "crypto_usage_analyzer"
version = "0.1.0"
edition = "2021"
publish = false

[dependencies]
humantime = "2"
serde = { version = "1", features = ["derive"] }
serde_json = "1"
sysinfo = "*"
