[package]
name = "shamash"
version = "0.1.0"
edition = "2021"
publish = false

[dependencies]
anyhow = "1"
dotenvy = "0.15"
reqwest = "0.12"
serde = { version = "1", features = ["derive"] }
serde_json = "1"
serenity = "0.12"
songbird = "0.5"
tokio = { version = "1", features = ["full"] }
tracing = "0.1"
tracing-subscriber = { version = "0.3", features = ["env-filter"] }
whisper-rs = "*"
