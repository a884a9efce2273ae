[package]
name = "cargo-feature-lens"
version = "0.1.0"
edition = "2021"
publish = false

[dependencies]
thiserror = "*"
tempfile = "3"
