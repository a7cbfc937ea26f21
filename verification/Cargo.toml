[package]
name = "portview"
version = "0.1.0"
edition = "2021"
publish = false

[dependencies]
libc = "*"
clap = { version = "*", features = ["derive"] }
crossterm = "*"
ratatui = "*"
