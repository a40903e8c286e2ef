[package]
name = "json_print"
version = "0.1.0"
edition = "2021"
publish = false

[dependencies]
serde_json = { version = "=1.0.154", features = ["preserve_order"] }
anyhow = "=1.0.104"
codespan-reporting = "=0.11.1"
ast-grep-core = "=0.5.7"
ast-grep-config = "=0.5.7"
ast-grep-language = { version = "=0.5.7", default-features = false }
