[package]
name = "blaze_haskell"
version = "0.1.0"
edition = "2021"
publish = false

[dependencies]
axum = "*"
log = "*"
serde = { version = "*", features = ["derive"] }
serde_json = "*"
tokio = { version = "*", features = ["full"] }
tower-http = { version = "*", features = ["trace"] }
tracing-subscriber = { version = "*", features = ["env-filter"] }
