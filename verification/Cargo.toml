[package]
name = "cce-cloud"
version = "0.1.0"
edition = "2021"
publish = false

[dependencies]
calloop = "0.13"
calloop-wayland-source = "0.3"
env_logger = "0.11"
glyphon = "0.5"
libc = "0.2"
log = "0.4"
serde = { version = "1", features = ["derive"] }
serde_json = "1"
smithay-client-toolkit = "0.19"
wayland-client = "0.31"
xkeysym = "0.2"
