[package]
name = "tracing-fastly"
version = "0.1.0"
edition = "2021"
publish = false

[dependencies]
fastly = "*"
serde = "1"
serde_json = "1"
tracing = "0.1"
tracing-subscriber = "0.3"
