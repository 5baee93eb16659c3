[package]
name = "fuel_logger"
version = "0.1.0"
edition = "2021"
publish = false

[dependencies]
anyhow = "1"
axum = "0.8"
base64 = "0.22"
chrono = "0.4"
chrono-tz = "0.10"
dotenvy = "0.15"
rppal = "0.22"
serde = { version = "1", features = ["derive"] }
sqlx = { version = "0.8", default-features = false, features = ["runtime-tokio", "sqlite", "derive", "chrono"] }
tokio = { version = "1", features = ["full"] }
tokio-serial = { version = "5.4", default-features = false }
toml = "0.8"
tower-http = { version = "0.6", features = ["cors", "trace"] }
tracing = "0.1"
tracing-subscriber = { version = "0.3", features = ["env-filter"] }
