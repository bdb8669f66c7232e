[package]
name = "mcp_rust_docs_embed"
version = "0.1.0"
edition = "2021"
publish = false

[dependencies]
url = "=2.5.8"
tree-sitter = "=0.27.0"
tree-sitter-rust = "=0.24.2"
tree-sitter-typescript = "=0.23.2"
tiktoken-rs = "=0.12.1"
text-splitter = { version = "=0.33.0", features = ["markdown"] }
anyhow = "=1.0.104"
clap = { version = "=4.6.7", features = ["derive"] }
tokio = { version = "=1.53.2", features = ["rt-multi-thread", "macros", "signal"] }
tokio-util = "*"
git2 = { version = "=0.21.0", default-features = false }
tempfile = "*"
walkdir = "=2.5.0"
qdrant-client = "=1.19.0"
async-openai = { version = "=0.42.1", features = ["embedding"] }
serde = { version = "=1.0.229", features = ["derive"] }
serde_json = "*"
chrono = "=0.4.45"
dotenvy = "=0.15.7"
futures = "*"
uuid = { version = "=1.27.0", features = ["v4"] }
reqwest = { version = "*", default-features = false, features = ["json", "rustls-tls"] }
