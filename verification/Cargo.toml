[package]
name = "ktann"
version = "0.1.0"
edition = "2021"
publish = false

[dependencies]
bytes = "1"
metrics = "0.24"
tokio = { version = "1", features = ["macros", "rt", "rt-multi-thread", "sync", "time"] }
tokio-util = "0.7"
tracing = "0.1"
xxhash-rust = { version = "0.8", features = ["xxh3"] }
