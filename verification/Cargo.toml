[package]
name = "hangar"
version = "0.1.0"
edition = "2021"
publish = false

[dependencies]
titlecase = "*"
requestty = "*"
home = "*"
log = "*"
env_logger = "*"
