[package]
name = "tsp"
version = "0.1.0"
edition = "2021"
publish = false

[dependencies]
itertools = "0.10"
rand = "0.8"
log = "0.4"
env_logger = "0.10"
