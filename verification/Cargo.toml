[package]
name = "credential_truth"
version = "0.1.0"
edition = "2021"
publish = false

[dependencies]
base64-url = "*"
clap = "*"
env_logger = "*"
home = "*"
log = "*"
which = "*"
