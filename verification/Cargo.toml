[package]
name = "red_engine2"
version = "0.1.0"
edition = "2021"
publish = false

[dependencies]
serde_json = "=1.0.154"
env_logger = "=0.11.11"
