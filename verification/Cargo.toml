[package]
name = "canvas_space"
version = "0.1.0"
edition = "2021"
publish = false

[dependencies]
niri-ipc = "*"
smithay = { version = "*", default-features = false }
tracing = "0.1"
