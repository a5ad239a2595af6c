[package]
name = "srgn"
version = "0.1.0"
edition = "2021"
publish = false

[dependencies]
clap = { version = "4", features = ["derive"] }
itertools = "*"
regex = "1"
tree-sitter = "*"
tree-sitter-hcl = "*"
tree-sitter-python = "*"
