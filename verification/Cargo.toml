[package]
name = "scte35dump"
version = "0.1.0"
edition = "2021"
publish = false

[dependencies]
hex = "=0.4.3"
base64 = "=0.21.7"
argh = "=0.1.19"
env_logger = "=0.11.11"
