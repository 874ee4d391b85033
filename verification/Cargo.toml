[package]
name = "prmd"
version = "0.1.0"
edition = "2021"
publish = false

[dependencies]
ansi_term = "0.12"
ansi-escapes = "*"
comrak = "*"
clap = { version = "*", features = ["derive"] }
