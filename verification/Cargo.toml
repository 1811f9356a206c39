[package]
name = "crabtalk"
version = "0.1.0"
edition = "2021"
publish = false

[dependencies]
crabllm-core = "=0.0.25"
crabllm-provider = "*"
crabllm-sdk = "*"
serde = { version = "=1.0.229", features = ["derive"] }
serde_json = "=1.0.154"
toml = "=1.1.8"
anyhow = "=1.0.104"
chrono = "=0.4.45"
tokio = { version = "=1.54.1", features = ["sync", "time", "process", "fs", "rt", "macros"] }
ulid = "=1.2.1"
dirs = "=7.0.0"
schemars = "=1.2.3"
clap = { version = "=4.6.7", features = ["derive"] }
compact_str = "=0.10.0"
tracing = "=0.1.44"
parking_lot = "=0.12.5"
futures-util = "=0.3.34"
futures-core = "=0.3.34"
async-stream = "=0.3.6"
