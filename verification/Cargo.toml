[package]
name = "uninstall"
version = "0.1.0"
edition = "2021"
publish = false

[dependencies]
rust_search = "*"
clap = { version = "4", features = ["derive"] }
resolve-path = "*"
regex = "1"
