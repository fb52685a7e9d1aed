[package]
name = "metrics_bridge"
version = "0.1.5"
edition = "2021"
publish = false

[dependencies]
base64 = "0.22"
serde = { version = "1", features = ["derive"] }
serde_json = "1"
serde_yaml = "0.9"
ipnet = "2"
thiserror = "2"
tokio = { version = "1", features = ["full"] }
axum = "0.7"
deadpool-redis = "0.18"
redis = { version = "0.27", features = ["tokio-comp"] }
prometheus = { version = "0.13", default-features = false }
once_cell = "1"
tracing = "0.1"
tracing-subscriber = { version = "0.3", features = ["env-filter"] }
futures = "0.3"
async-trait = "0.1"
tikv-jemallocator = "0.6"
