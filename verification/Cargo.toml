[package]
name = "git_filter_server"
version = "0.1.0"
edition = "2021"
publish = false

[dependencies]
anyhow = "1"
hex = "0.4"
tracing = "0.1"
