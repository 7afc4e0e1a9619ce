[package]
name = "axxon_flash"
version = "0.1.0"
edition = "2021"
publish = false

[dependencies]
clap = "2"
libc = "0.2"
log = "0.4"
env_logger = "0.7"
