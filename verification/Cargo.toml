[package]
name = "apt_history"
version = "0.1.0"
edition = "2021"
publish = false

[dependencies]
chrono = "0.4"
ansi_term = "0.12"
clap = { version = "4", features = ["derive"] }
flate2 = "1"
stybulate = "*"
tabular = "*"
