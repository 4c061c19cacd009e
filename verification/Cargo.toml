[package]
name = "sar_extraction"
version = "0.1.0"
edition = "2021"
publish = false

[dependencies]
regex = "1"
sha2 = "0.10"
tree-sitter = "0.25"
tree-sitter-go = "0.23"
tree-sitter-java = "0.23"
