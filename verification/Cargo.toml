[package]
name = "phplint"
version = "0.1.0"
edition = "2021"
publish = false

[dependencies]
itertools = "*"
rust_lsp = "*"
serde_json = "*"
url = "*"
