[package]
name = "gungho"
version = "0.1.0"
edition = "2021"
publish = false

[dependencies]
rand = "0.9"
anyhow = "1"
bytes = "1"
http-body-util = "0.1"
hyper = { version = "1", features = ["server", "client", "http1"] }
hyper-util = { version = "0.1", features = ["client-legacy", "http1", "tokio", "server"] }
opentelemetry-otlp = { version = "*", features = ["grpc-tonic"] }
opentelemetry_sdk = "*"
prometheus = "*"
serde = { version = "1", features = ["derive"] }
thiserror = "*"
tokio = { version = "1", features = ["full"] }
tokio-util = "0.7"
toml = "*"
tracing = "0.1"
tracing-opentelemetry = "*"
tracing-subscriber = { version = "*", features = ["env-filter", "json"] }
