[package]
name = "splat_renderer"
version = "0.1.0"
edition = "2021"
publish = false

[dependencies]
winit = "0.28"
log = "0.4"
env_logger = "0.10"
