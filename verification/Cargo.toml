[package]
name = "fediblablag"
version = "0.1.0"
edition = "2021"
publish = false

[dependencies]
comrak = "*"
serde_yaml = "*"
elefren = "*"
dotenv = "*"
env_logger = "*"
log = "*"
