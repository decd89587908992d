[package]
name = "rjrssync"
version = "0.1.0"
edition = "2021"
publish = false

[dependencies]
clap = { version = "4", features = ["derive"] }
clap_complete = "4"
crossbeam = "0.8"
dialoguer = "0.11"
env_logger = "0.10"
indicatif = "0.17"
lazy_static = "1"
log = "0.4"
regex = "1"
yaml-rust = "0.4"
