[package]
name = "cmprs"
version = "0.1.0"
edition = "2021"
publish = false

[dependencies]
sha2 = "*"
zstd = "*"
clap = { version = "*", features = ["derive"] }
tempfile = "*"
