[package]
name = "modnut"
version = "0.1.0"
edition = "2021"
publish = false

[dependencies]
hid-types = "*"
hid-decode = "*"
hidapi = "*"
log = "*"
env_logger = "*"
config = "*"
serde = { version = "*", features = ["derive"] }
