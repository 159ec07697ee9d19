[package]
name = "taskerie"
version = "0.1.0"
edition = "2021"
publish = false

[dependencies]
indexmap = { version = "2", features = ["serde"] }
regex = "1"
serde = { version = "1", features = ["derive"] }
serde_norway = "*"
subprocess = "0.2"
inquire = "*"
pretty_env_logger = "*"
