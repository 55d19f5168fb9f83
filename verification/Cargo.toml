[package]
name = "log_parse"
version = "0.1.0"
edition = "2021"
publish = false

[dependencies]
ansi_term = "*"
chrono = "*"
clap = { version = "*", features = ["derive"] }
flate2 = "*"
glob = "*"
