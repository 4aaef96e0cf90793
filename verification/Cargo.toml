[package]
name = "thread_engine"
version = "0.1.0"
edition = "2021"
publish = false

[dependencies]
reqwest = { version = "*", default-features = false }
serde = { version = "*", features = ["derive"] }
serde_json = "*"
tokio = { version = "*", features = ["rt", "rt-multi-thread", "net", "sync", "macros", "time"] }
tokio-tungstenite = "*"
futures-util = { version = "*", features = ["sink"] }
tracing = "*"
