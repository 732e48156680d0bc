[package]
name = "spanlog"
version = "0.1.0"
edition = "2021"
publish = false

[dependencies]
serde_json = "1"
chrono = "0.4"
tokio = { version = "1", features = ["io-util", "macros", "process", "rt-multi-thread", "sync"] }
