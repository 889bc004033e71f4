[package]
name = "breathe"
version = "0.1.0"
edition = "2021"
publish = false

[dependencies]
anyhow = "1"
chrono = "0.4"
clap = { version = "4", features = ["derive"] }
dialoguer = "*"
dirs = "*"
env_logger = "*"
indicatif = "*"
log = "0.4"
num-integer = "0.1"
serde = { version = "1", features = ["derive"] }
strum = { version = "*", features = ["derive"] }
timer = "*"
toml = "*"
