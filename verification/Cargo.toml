[package]
name = "qubit"
version = "0.1.0"
edition = "2021"
publish = false

[dependencies]
moka = { version = "=0.12.16", features = ["sync"] }
serde = { version = "=1.0.229", features = ["derive"] }
serde_yaml = "=0.9.34"
serde_json = "=1.0.154"
tokio = { version = "=1.54.1", features = ["full"] }
axum = "=0.8.9"
tower-http = { version = "=0.7.1", features = ["cors"] }
log = "=0.4.35"
env_logger = "=0.11.11"
anyhow = "=1.0.104"
thiserror = "=2.0.21"
clap = { version = "=4.6.7", features = ["derive", "env"] }
k8s-openapi = { version = "=0.29.0", features = ["latest"] }
clickhouse = "=0.15.3"
futures = "=0.3.34"
