[package]
name = "sui_ipc"
version = "0.1.0"
edition = "2021"
publish = false

[dependencies]
anyhow = "1"
bcs = "0.1"
bincode = "1"
dashmap = "6"
fastcrypto = "0.1"
interprocess = { version = "2", features = ["tokio"] }
once_cell = "1"
serde = "1"
serde_json = "1"
tokio = { version = "1", features = ["io-util", "net", "rt-multi-thread", "sync"] }
tracing = "0.1"
