[package]
name = "iboardbot"
version = "0.1.0"
edition = "2021"
publish = false

[dependencies]
aide = { version = "0.13", features = ["axum", "scalar"] }
anyhow = "1"
axum = { version = "0.7", features = ["multipart"] }
bevy_math = "0.14"
chrono = { version = "0.4", features = ["serde"] }
clap = { version = "4", features = ["derive", "env"] }
font-kit = "0.14"
lazy_static = "1"
rand = "0.8"
reqwest = { version = "0.12", default-features = false }
schemars = { version = "0.8", features = ["chrono"] }
serde = { version = "1", features = ["derive"] }
serde_yaml = "0.9"
tokio = { version = "1", features = ["full"] }
tower-http = { version = "0.5", features = ["cors"] }
tracing = "0.1"
tracing-subscriber = "0.3"
uuid = { version = "1", features = ["v4"] }
