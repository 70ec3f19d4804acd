[package]
name = "lightseal"
version = "0.1.0"
edition = "2021"
publish = false

[dependencies]
anyhow = "=1.0.104"
counter = "=0.7.1"
env_logger = "=0.11.11"
log = "=0.4.34"
rustmatica = { version = "=0.2.0", default-features = false }
