[package]
name = "response_cache"
version = "0.1.0"
edition = "2021"
publish = false

[dependencies]
dashmap = "=6.2.1"
metrics = "=0.24.6"
serde = "1"
serde_json = "=1.0.154"
tracing = "=0.1.44"
