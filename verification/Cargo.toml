[package]
name = "noir_tooling"
version = "0.1.0"
edition = "2021"
publish = false

[dependencies]
async-lsp = { version = "0.2.4", default-features = false }
