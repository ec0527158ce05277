[package]
name = "ordin"
version = "0.1.0"
edition = "2021"
publish = false

[dependencies]
actix-web = "*"
env_logger = "*"
log = "*"
serde = { version = "*", features = ["derive"] }
serde_yaml = "*"
structopt = "*"
time = "*"
toml = "*"
