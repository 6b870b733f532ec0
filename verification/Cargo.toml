[package]
name = "frep_core"
version = "0.1.0"
edition = "2021"
publish = false

[dependencies]
anyhow = "*"
clap = { version = "*", features = ["derive"] }
crossterm = "*"
fancy-regex = "*"
ignore = "*"
log = "*"
regex = "*"
simple-log = "*"
tempfile = "*"
