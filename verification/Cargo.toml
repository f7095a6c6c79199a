[package]
name = "lakehouse_ingest"
version = "0.1.0"
edition = "2021"
publish = false

[dependencies]
serde_json = "1"
serde = "1"
tokio = { version = "1", features = ["macros", "rt"] }
lambda_http = "*"
lambda_runtime = "*"
