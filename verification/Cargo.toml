[package]
name = "tsdb"
version = "0.1.0"
edition = "2021"
publish = false

[dependencies]
influxdb-line-protocol = "=2.0.0"
chrono = "=0.4.45"
toml = "=1.1.8"
anyhow = "=1.0.104"
axum = "=0.8.9"
bincode = "=1.3.3"
clap = { version = "=4.6.7", features = ["derive"] }
config = { version = "=0.15.27", default-features = false, features = ["toml"] }
dashmap = "=6.2.1"
reqwest = { version = "=0.13.5", default-features = false, features = ["json"] }
serde = { version = "=1.0.229", features = ["derive"] }
serde_json = "=1.0.154"
swim-rs = "=0.1.1"
tokio = { version = "=1.54.1", features = ["full"] }
tracing = "=0.1.44"
tracing-subscriber = { version = "=0.3.23", features = ["env-filter"] }
walcraft = "=0.2.0"
