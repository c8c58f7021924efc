[package]
name = "steampipe"
version = "0.1.0"
edition = "2021"
publish = false

[dependencies]
tree-sitter = "=0.20.10"
anyhow = "=1.0.104"
serde = { version = "=1.0.229", features = ["derive"] }
serde_json = "=1.0.154"
toml = "=0.8.23"
toml_edit = "=0.22.27"
clap = { version = "=4.6.7", features = ["derive"] }
console = "=0.15.11"
dirs = "=5.0.1"

[dev-dependencies]
tree-sitter-rust = "=0.20.4"
tree-sitter-ruby = "=0.20.1"
tree-sitter-c-sharp = "=0.20.0"
tree-sitter-kotlin = "=0.3.1"
tree-sitter-swift = "=0.3.6"
tempfile = "=3.27.0"
