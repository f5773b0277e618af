[package]
name = "metrique-otel"
version = "0.1.0"
edition = "2021"
publish = false

[dependencies]
metrique-writer-core = "=0.1.18"
opentelemetry = "=0.33.1"
opentelemetry_sdk = { version = "=0.33.1", features = ["metrics", "testing"] }
