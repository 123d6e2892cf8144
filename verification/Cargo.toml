[package]
name = "csearch-core"
version = "0.1.0"
edition = "2021"
publish = false

[dependencies]
tree-sitter = "*"
tree-sitter-c = "*"
slotted-egraphs = "*"
pyo3 = "0.20"
