[package]
name = "ledger_core"
version = "0.1.0"
edition = "2021"
publish = false

[dependencies]
chrono = "*"
axum = "*"
tokio = { version = "*", features = ["rt-multi-thread", "macros", "net", "sync", "fs"] }
tower-http = { version = "*", features = ["cors"] }
tracing-subscriber = "*"
serde = { version = "*", features = ["derive"] }
serde_json = "*"
rdkafka = "*"
