[package]
name = "rubber_duck"
version = "0.1.0"
edition = "2021"
publish = false

[dependencies]
regex = "1"
serde_json = "1"
base64 = "0.22"
percent-encoding = "2"
tree-sitter = "*"
tree-sitter-rust = "*"
tree-sitter-typescript = "*"
tree-sitter-javascript = "*"
tree-sitter-python = "*"
tree-sitter-go = "*"
tree-sitter-java = "*"
tree-sitter-c-sharp = "*"
serde = { version = "1", features = ["derive"] }
rusqlite = { version = "*", features = ["bundled"] }
sqlite-vec = "*"
uuid = { version = "1", features = ["v4"] }
ignore = "0.4"
thiserror = "*"
tracing = "0.1"
reqwest = { version = "0.12", default-features = false, features = ["json", "stream", "rustls-tls"] }
tokio = { version = "1", features = ["rt-multi-thread", "macros", "sync", "time"] }
tokio-util = "0.7"
futures = "0.3"
keyring = "*"
