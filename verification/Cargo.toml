[package]
name = "watcher"
version = "0.1.0"
edition = "2021"
publish = false

[dependencies]
sha2 = "0.10"
hex = "0.4"
serde = { version = "1", features = ["derive"] }
serde_json = "1"
toml = "0.8"
humantime-serde = "1"
anyhow = "1"
thiserror = "2"
tokio = { version = "1", features = ["full"] }
tokio-util = "0.7"
tracing = "0.1"
tracing-subscriber = { version = "0.3", features = ["env-filter", "json"] }
clap = { version = "4", features = ["derive", "env"] }
async-trait = "0.1"
aws-config = "1"
aws-sdk-ssm = "1"
aws-sdk-sqs = "1"
aws-sdk-eventbridge = "1"

[dev-dependencies]
