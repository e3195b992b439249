[package]
name = "benilla"
version = "0.1.0"
edition = "2021"
publish = false

[dependencies]
anyhow = "1"
axum = { version = "0.8", features = ["ws"] }
clap = { version = "4", features = ["derive"] }
futures-util = { version = "0.3", features = ["sink"] }
percent-encoding = "2"
serde_json = "1"
tokio = { version = "1", features = ["full"] }
tower-http = { version = "0.6", features = ["compression-br", "set-header"] }
tracing = "0.1"
tracing-subscriber = "0.3"
