[package]
name = "proxy_runtime"
version = "0.1.0"
edition = "2021"
publish = false

[dependencies]
dirs = "6"
rand = "0.9"
serde = "1"
serde_json = "1"
tokio = { version = "1", features = ["rt-multi-thread", "net", "time"] }
tracing = "0.1"
url = "2"
