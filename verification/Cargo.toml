[package]
name = "analyzer"
version = "0.1.0"
edition = "2021"
publish = false

[dependencies]
anyhow = "1"
clap = "3"
ollama-rs = "*"
serde_json = "1"
tokio = { version = "1", features = ["full"] }
tracing = "0.1"
tracing-subscriber = "0.3"
tree-sitter = "0.20"
tree-sitter-go = "0.20"
walkdir = "2"
