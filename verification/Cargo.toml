[package]
name = "unrusty"
version = "0.1.0"
edition = "2021"
publish = false

[dependencies]
flate2 = "*"
hex = "*"
sha1 = "*"
docopt = "*"
serde = { version = "*", features = ["derive"] }
serde_yaml = "*"
log = "*"
env_logger = "*"
