[package]
name = "gsx_dag"
version = "0.3.0"
edition = "2021"
publish = false

[dependencies]
anyhow = "1"
axum = "0.7"
blake3 = "1"
clap = { version = "4", features = ["derive", "env"] }
futures-util = "0.3"
hex = "0.4"
serde = { version = "1", features = ["derive"] }
serde_json = "1"
sqlx = { version = "0.8", default-features = false, features = ["runtime-tokio", "postgres", "migrate"] }
thiserror = "1"
tokio = { version = "1", features = ["full"] }
tokio-tungstenite = "0.24"
tracing = "0.1"
tracing-subscriber = { version = "0.3", features = ["env-filter"] }
