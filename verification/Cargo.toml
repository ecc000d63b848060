[package]
name = "trading_backend"
version = "0.1.0"
edition = "2021"
publish = false

[dependencies]
rand = "=0.8.8"
rust_decimal = "=1.43.0"
serde = { version = "=1.0.229", features = ["derive"] }
serde_json = "=1.0.154"
tokio = { version = "=1.54.1", features = ["rt-multi-thread", "macros", "fs", "sync"] }
anyhow = "=1.0.104"
axum = { version = "=0.7.9", features = ["multipart"] }
sqlx = { version = "=0.8.6", default-features = false, features = ["sqlite", "runtime-tokio", "macros"] }
base64 = "=0.22.1"
jsonwebtoken = "9"
reqwest = { version = "0.12", default-features = false, features = ["json", "rustls-tls"] }
uuid = { version = "1", features = ["v4"] }
tracing = "0.1"
mime = "=0.3.17"
dotenvy = "=0.15.7"
