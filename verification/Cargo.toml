[package]
name = "rush"
version = "0.1.0"
edition = "2021"

[dependencies]
byteorder = "1"
bytes = "1"
itertools = "0.10"
rand = "0.8"
serde = "1"
tokio = { version = "1", features = ["io-util", "macros", "net", "rt-multi-thread", "signal", "sync"] }
tracing = "0.1"

[dev-dependencies]
serde_json = "1"
