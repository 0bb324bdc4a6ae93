[package]
name = "gem-index-filter"
version = "0.1.0"
edition = "2021"
publish = false

[dependencies]
sha2 = "=0.11.1"
hex = "=0.4.3"
axum = "=0.8.9"
tokio = { version = "=1.54.1", features = ["full"] }
reqwest = "=0.13.5"
serde = { version = "=1.0.229", features = ["derive"] }
chrono = "=0.4.45"
aws-config = "1"
aws-sdk-s3 = "1"
