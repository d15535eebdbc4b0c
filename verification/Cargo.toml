[package]
name = "hst"
version = "0.1.0"
edition = "2021"
publish = false

[dependencies]
anyhow = "*"
clap = { version = "*", features = ["derive"] }
crossterm = "*"
dirs = "*"
libc = "*"
ratatui = "*"
tempfile = "*"
