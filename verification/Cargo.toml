[package]
name = "key_remap"
version = "0.1.0"
edition = "2021"
publish = false

[dependencies]
image = "*"
interception = "*"
tray-icon = "*"
winit = "*"
