[package]
name = "tracing_bridge"
version = "0.1.0"
edition = "2021"
publish = false

[dependencies]
memchr = "*"
tracing = "*"
tracing-subscriber = "*"
tracing-appender = "*"
serde = { version = "*", features = ["derive"] }
serde_json = "*"
