[package]
name = "eth_indexer"
version = "0.1.0"
edition = "2021"
publish = false

[dependencies]
alloy-primitives = "1"
alloy-sol-types = "1"
anyhow = "1"
clap = { version = "4", features = ["derive"] }
comfy-table = "7"
csv = "1"
dotenv = "0.15"
futures = "0.3"
regex = "1"
rusqlite = { version = "0.31", features = ["bundled"] }
serde_json = "1"
tokio = { version = "1", features = ["full"] }
tokio-retry = "0.3"
tracing = "0.1"
tracing-subscriber = "0.3"
