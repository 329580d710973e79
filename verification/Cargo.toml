[package]
name = "codegraph"
version = "0.1.0"
edition = "2021"
publish = false

[dependencies]
bincode = "1"
petgraph = { version = "0.6", features = ["serde-1"] }
serde = { version = "1", features = ["derive"] }
serde_json = "1"
tracing = "0.1"
uuid = { version = "1", features = ["v4", "serde"] }
