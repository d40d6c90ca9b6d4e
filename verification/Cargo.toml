[package]
name = "kv_cache_tier"
version = "0.1.0"
edition = "2021"
publish = false

[dependencies]
zstd = "*"
anyhow = "*"
axum = "*"
clap = { version = "*", features = ["derive"] }
futures = "*"
serde = { version = "*", features = ["derive"] }
serde_json = "*"
thiserror = "*"
tokio = { version = "*", features = ["full"] }
tokio-stream = "*"
tracing = "*"
tracing-subscriber = "*"
uuid = { version = "*", features = ["v4"] }
