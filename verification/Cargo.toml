[package]
name = "sandy"
version = "0.1.0"
edition = "2021"
publish = false

[dependencies]
clap = { version = "*", features = ["derive"] }
command-fds = "*"
serde = { version = "*", features = ["derive"] }
serde_yaml = "*"
