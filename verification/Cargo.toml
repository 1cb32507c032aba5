[package]
name = "trade_edge"
version = "0.1.0"
edition = "2021"
publish = false

[dependencies]
alloy-primitives = { version = "=0.8.26", features = ["serde"] }
alloy-sol-types = "=0.8.26"
axum = "=0.8.9"
clap = { version = "=4.6.7", features = ["derive"] }
crossterm = "=0.28.1"
futures = "=0.3.34"
log = "=0.4.35"
rand = "=0.8.8"
rand_distr = "=0.4.3"
ratatui = "=0.29.0"
reqwest = { version = "=0.12.28", default-features = false, features = ["json", "stream"] }
serde = { version = "=1.0.229", features = ["derive"] }
serde_json = "=1.0.154"
simplelog = "=0.12.2"
tokio = { version = "=1.54.1", features = ["full"] }
tokio-stream = { version = "=0.1.19", features = ["sync"] }
