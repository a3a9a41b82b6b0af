[package]
name = "callix"
version = "0.1.0"
edition = "2021"
publish = false

[dependencies]
indexmap = "*"
pyo3 = { version = "*", features = ["abi3-py310", "extension-module"] }
serde_json = "*"
sha2 = "0.10"
thiserror = "*"
tree-sitter = "*"
tree-sitter-c = "*"
tree-sitter-cpp = "*"
tree-sitter-go = "*"
tree-sitter-php = "*"
walkdir = "*"
