[package]
name = "bump"
version = "0.1.0"
edition = "2021"
publish = false

[dependencies]
toml_edit = "=0.25.15"
eyre = "=0.6.14"
log = "=0.4.34"
env_logger = "=0.11.11"
dirs = "=7.0.0"
