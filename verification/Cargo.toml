[package]
name = "neoqmllsp"
version = "0.1.0"
edition = "2021"
publish = false

[dependencies]
tree-sitter = "0.20"
tree-sitter-qmljs = "0.1"
pathdiff = "0.2"
lsp-types = "0.94"
tower-lsp = "0.20"
tokio = { version = "1", features = ["full"] }
tokio-util = { version = "0.7", features = ["compat"] }
serde = { version = "1", features = ["derive"] }
serde_json = "1"
clap = "4"
glob = "0.3"
anyhow = "1"
once_cell = "1"
tracing-subscriber = "0.3"
