[package]
name = "memgraph"
version = "0.1.0"
edition = "2021"
publish = false

[dependencies]
csv = "1"
tokio = { version = "1", features = ["macros", "rt-multi-thread", "time"] }
tracing = "0.1"
tracing-subscriber = "0.3"
