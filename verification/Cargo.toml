[package]
name = "embeddings-rs"
version = "0.1.1"
edition = "2021"
publish = false

[dependencies]
axum = "=0.8.9"
ort = { version = "=2.0.0-rc.12", default-features = false, features = ["std", "load-dynamic", "api-24"] }
serde = { version = "=1.0.229", features = ["derive"] }
tokenizers = "=0.23.2"
tokio = { version = "=1.54.1", features = ["rt-multi-thread", "macros", "sync", "net", "time"] }
tracing = "=0.1.44"
tracing-subscriber = "=0.3.23"
utoipa = { version = "=5.5.0", features = ["axum_extras"] }
utoipa-axum = "=0.2.0"
