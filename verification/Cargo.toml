[package]
name = "airbyte-to-flow"
version = "0.1.0"
edition = "2021"
publish = false

[dependencies]
bytelines = "2"
bytes = "1"
futures = "0.3"
json-patch = "*"
prost = "*"
serde = { version = "1", features = ["derive"] }
serde_json = { version = "1", features = ["raw_value"] }
tempfile = "3"
tokio = { version = "1", features = ["sync", "io-util"] }
tokio-util = { version = "0.7", features = ["io"] }
tracing = "0.1"
validator = { version = "*", features = ["derive"] }
