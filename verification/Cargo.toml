[package]
name = "grok_rs"
version = "0.1.0"
edition = "2021"
publish = false

[dependencies]
regex = "1"
glob = "0.3"
lazy_static = "1"
