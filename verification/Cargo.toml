[package]
name = "sui_replay"
version = "0.1.0"
edition = "2021"
publish = false

[dependencies]
anyhow = "1"
bcs = "0.1"
futures = "0.3"
move-core-types = "0.0.3"
prometheus = "0.13"
serde_json = "1"
similar = "2"
tokio = { version = "1", features = ["time", "rt"] }
tracing = "0.1"
