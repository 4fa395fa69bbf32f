[package]
name = "abnana"
version = "0.1.0"
edition = "2021"
publish = false

[dependencies]
anyhow = "1"
axum = "0.8"
proc-macro2 = "1"
prometheus-client = "*"
quote = "1"
serde = { version = "1", features = ["derive"] }
sqlx = { version = "0.8", default-features = false, features = ["runtime-tokio", "sqlite", "migrate"] }
syn = { version = "2", features = ["full"] }
tokio = { version = "1", features = ["full"] }
