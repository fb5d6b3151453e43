[package]
name = "siscript"
version = "0.1.0"
edition = "2021"
publish = false

[dependencies]
ropey = "=1.6.1"
lsp-types = "=0.94.1"
dashmap = "5"
