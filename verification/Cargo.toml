[package]
name = "lauras"
version = "0.2.0"
edition = "2021"
publish = false

[dependencies]
axum = "*"
serde = { version = "1", features = ["derive"] }
serde_json = "1"
tokio = { version = "1", features = ["full"] }
tower-http = { version = "*", features = ["cors", "trace"] }
tracing-subscriber = "*"
