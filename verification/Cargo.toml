[package]
name = "openaec-cloud"
version = "0.1.0"
edition = "2021"
publish = false

[dependencies]
serde = { version = "=1.0.229", features = ["derive"] }
serde_json = "=1.0.154"
uuid = { version = "=1.29.0", features = ["v4"] }
urlencoding = "=2.1.3"
tracing = "=0.1.44"
reqwest = { version = "=0.12.28", default-features = false }
getrandom = "=0.4.3"
