[package]
name = "kv_transport"
version = "0.1.0"
edition = "2021"
publish = false

[dependencies]
dashmap = "5"
futures = "0.3"
port_scanner = "0.1"
rand = "0.8"
serde = { version = "1", features = ["derive"] }
serde_json = { version = "1", features = ["preserve_order"] }
tokio = { version = "1", features = ["io-util", "net", "rt", "rt-multi-thread", "sync"] }
