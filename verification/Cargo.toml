[package]
name = "prompt_fuzz"
version = "0.1.0"
edition = "2021"
publish = false

[dependencies]
rand = "=0.10.3"
tree-sitter = "=0.27.0"
tree-sitter-cpp = "=0.23.4"
serde = { version = "*", features = ["derive"] }
serde_json = "*"
clap = { version = "*", features = ["derive"] }
eyre = "*"
log = "*"
once_cell = "*"
csv = "*"
