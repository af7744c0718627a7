[package]
name = "pbcat"
version = "0.1.0"
edition = "2021"
publish = false

[dependencies]
ignore = "*"

[dev-dependencies]
tempfile = "*"
