[package]
name = "rust_flask"
version = "0.1.0"
edition = "2021"
publish = false

[dependencies]
hyper = { version = "0.14", features = ["server", "http1", "tcp"] }
tokio = { version = "1", features = ["sync"] }
serde = "1"
serde_json = "1"
