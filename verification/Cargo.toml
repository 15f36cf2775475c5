[package]
name = "fuel_lab"
version = "0.1.0"
edition = "2021"
publish = false

[dependencies]
chrono = "0.4"
log = "0.4"
env_logger = { version = "0.11", default-features = false }
iced = "0.14"
rfd = "0.17"
