[package]
name = "log_reader"
version = "0.1.0"
edition = "2021"
publish = false

[dependencies]
futures = "0.3"
notify = "*"
thiserror = "*"
tokio = { version = "1", features = ["fs", "io-util", "sync", "rt", "rt-multi-thread", "macros", "time"] }
tokio-stream = "0.1"
