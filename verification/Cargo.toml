[package]
name = "zenoh_protocol"
version = "0.1.0"
edition = "2021"
publish = false

[dependencies]
rand = "0.8"
env_logger = "0.10"
