[package]
name = "relay"
version = "0.1.0"
edition = "2021"
publish = false

[dependencies]
tokio = { version = "*", features = ["sync", "rt-multi-thread", "time", "net", "macros"] }
axum = { version = "*", features = ["ws"] }
futures-util = "*"
serde = { version = "*", features = ["derive"] }
serde_json = "*"
tracing = "*"
tracing-subscriber = { version = "*", features = ["env-filter", "fmt"] }
clap = { version = "*", features = ["derive"] }
tokio-tungstenite = "*"
rand = "*"
