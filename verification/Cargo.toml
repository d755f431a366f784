[package]
name = "msvc_helper"
version = "0.1.0"
edition = "2021"
publish = false

[dependencies]
log = "*"
env_logger = "*"
winreg = "*"
winapi = { version = "0.3", features = ["oleauto", "wtypes"] }
