[package]
name = "backup_ignore"
version = "0.1.0"
edition = "2021"
publish = false

[dependencies]
anyhow = "1"
clap = { version = "4", features = ["derive"] }
env_logger = "0.11"
ignore = "0.4"
log = "0.4"
shellexpand = "3"

[dev-dependencies]
tempfile = "3"
