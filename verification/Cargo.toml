[package]
name = "rex"
version = "0.1.0"
edition = "2021"
publish = false

[dependencies]
async-trait = "0.1"
bs58 = "0.5"
dashmap = "5"
futures = "0.3"
parking_lot = "0.12"
thiserror = "1"
tokio = { version = "1", features = ["rt", "sync", "time", "macros"] }
tokio-stream = { version = "0.1", features = ["time"] }
tracing = "0.1"
uuid = { version = "1", features = ["v4"] }
