[package]
name = "redis_queries"
version = "0.1.0"
edition = "2021"
publish = false

[dependencies]
ahash = "0.8"
anyhow = "1"
bytes = "1"
chrono = "0.4"
futures = "0.3"
log = "0.4"
redis = { version = "*", features = ["tokio-comp", "connection-manager"] }
rmp-serde = "1"
serde = { version = "1", features = ["derive"] }
serde_json = "1"
tokio = { version = "1", features = ["macros", "rt"] }
ustr = "1"
