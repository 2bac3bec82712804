[package]
name = "star_os"
version = "0.0.1"
edition = "2021"
publish = false

[dependencies]
burn = { version = "=0.17.1", default-features = false, features = ["std", "ndarray"] }
rand = "=0.8.8"
log = "=0.4.35"
env_logger = { version = "=0.11.11", default-features = false }
