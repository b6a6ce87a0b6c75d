[package]
name = "plainsight"
version = "0.1.0"
edition = "2021"
publish = false

[dependencies]
serde = { version = "=1.0.229", features = ["derive"] }
serde_json = "=1.0.154"
thiserror = "=2.0.21"
tokio = { version = "=1.54.1", features = ["rt-multi-thread", "macros", "sync", "time"] }
tracing = "=0.1.44"
tracing-subscriber = { version = "=0.3.23", features = ["env-filter"] }
ollama-rs = { version = "=0.3.6", features = ["macros"] }
clap = { version = "=4.6.7", features = ["derive"] }
argh = "=0.1.19"
tree-sitter = "=0.27.1"
tree-sitter-rust = "=0.24.2"
