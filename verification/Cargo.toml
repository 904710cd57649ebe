[package]
name = "lightpool_bot"
version = "0.5.0"
edition = "2021"
publish = false

[dependencies]
ahash = "=0.8.12"
anyhow = "1"
async-trait = "0.1"
chrono = "=0.4.45"
clap = { version = "4", features = ["derive"] }
dashmap = "=6.2.1"
dotenvy = "0.15"
futures-util = "0.3"
hex = "=0.4.3"
indexmap = "=2.14.2"
log = "0.4"
nautilus-common = { version = "=0.57.0", features = ["live"] }
nautilus-core = "=0.57.0"
nautilus-live = "=0.57.0"
nautilus-model = "=0.57.0"
nautilus-network = "=0.57.0"
nautilus-trading = "=0.57.0"
reqwest = { version = "*", features = ["json"] }
rust_decimal = "=1.43.0"
serde = { version = "1", features = ["derive"] }
serde_json = "1"
tokio = { version = "1", features = ["full"] }
tokio-tungstenite = "*"
tokio-util = "0.7"
ustr = "*"
uuid = { version = "1", features = ["serde"] }
