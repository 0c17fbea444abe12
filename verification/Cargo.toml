[package]
name = "commit_templates"
version = "0.1.0"
edition = "2021"

[dependencies]
anyhow = "*"
clap = { version = "*", features = ["derive"] }
colorize = "*"
inquire = "*"
regex = "*"
serde = { version = "*", features = ["derive"] }
temp-file = "*"
toml = "*"
