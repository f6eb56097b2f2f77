[package]
name = "arbol"
version = "0.1.0"
edition = "2021"
publish = false

[dependencies]
clap = { version = "*", features = ["derive"] }
clap-markdown = "*"
rayon = "*"
serde = { version = "*", features = ["derive"] }
serde_json = "*"
thiserror = "*"
tracing = "*"
tracing-subscriber = "*"
tree-sitter = "*"
tree-sitter-rust = "*"
walkdir = "*"
