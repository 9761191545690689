[package]
name = "nda_takehome"
version = "0.1.0"
edition = "2021"
publish = false

[dependencies]
dashmap = "*"
tokio = { version = "*", features = ["full"] }
tokio-util = "*"
tokio-stream = "*"
futures = "*"
csv-async = { version = "*", features = ["tokio"] }
serde = { version = "*", features = ["derive"] }
clap = { version = "*", features = ["derive"] }
anyhow = "*"
thiserror = "*"
tracing = "*"
tracing-subscriber = { version = "*", features = ["env-filter"] }
opentelemetry = "*"
opentelemetry_sdk = "*"
lazy_static = "*"

[dev-dependencies]
csv = "*"
tempfile = "*"
