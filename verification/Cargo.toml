[package]
name = "asset_scanner"
version = "0.1.0"
edition = "2021"
publish = false

[dependencies]
image = "*"
webp = "*"
rayon = "*"
log = "*"
env_logger = "*"
sha2 = "*"
