[package]
name = "adaptive_pipeline"
version = "0.1.0"
edition = "2021"
publish = false

[dependencies]
chrono = "0.4"
uuid = { version = "1", features = ["v4"] }
zeroize = "1"
sha2 = "0.10"
hex = "0.4"
ring = "0.17"
serde = { version = "1", features = ["derive"] }
serde_json = "1"
clap = { version = "4", features = ["derive"] }
anyhow = "1"
toml = "0.8"
tokio = { version = "1", features = ["rt-multi-thread", "macros", "fs", "io-util", "sync"] }
async-trait = "0.1"
futures = "0.3"
parking_lot = "0.12"
byte-unit = "5"
tracing = "0.1"
tracing-subscriber = "0.3"
prometheus = { version = "0.13", default-features = false }
