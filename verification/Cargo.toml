[package]
name = "llama_adapter"
version = "0.1.0"
edition = "2021"
publish = false

[dependencies]
async-trait = "0.1"
prometheus-parse = "0.2"
reqwest = { version = "0.12", default-features = false, features = ["json"] }
serde = { version = "1", features = ["derive"] }
tokio = { version = "1", features = ["sync"] }
tracing = "0.1"
