[package]
name = "escacs"
version = "0.1.0"
edition = "2021"
publish = false

[dependencies]
anyhow = "=1.0.104"
serde = { version = "=1.0.229", features = ["derive"] }
serde_json = "=1.0.154"
shakmaty = "=0.30.1"
sqlx = { version = "=0.8.6", default-features = false, features = ["derive", "migrate", "runtime-tokio", "sqlite"] }
tokio = { version = "=1.54.1", features = ["io-util", "macros", "process", "rt", "sync"] }
tracing = "=0.1.44"
tracing-subscriber = { version = "=0.3.23", features = ["env-filter"] }
