[package]
name = "solana_event_listener"
version = "0.1.0"
edition = "2021"
publish = false

[dependencies]
time = { version = "*", features = ["formatting"] }
anyhow = "*"
clap = { version = "*", features = ["derive", "env"] }
dotenvy = "*"
tokio = { version = "*", features = ["rt-multi-thread", "macros", "time", "net"] }
tokio-tungstenite = "*"
futures = "*"
axum = "*"
prometheus = "*"
tracing = "*"
tracing-subscriber = { version = "*", features = ["env-filter"] }

[dev-dependencies]
serde_json = "*"
