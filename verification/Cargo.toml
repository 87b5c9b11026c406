[package]
name = "night_gamma"
version = "0.1.0"
edition = "2021"
publish = false

[dependencies]
bytemuck = "1"
nix = { version = "0.27", features = ["fs"] }
signal-hook = "0.3"
time = "0.3"
tracing = "0.1"
tracing-subscriber = "0.3"
tz-rs = "0.6"
wayland-client = "0.31"
wayland-protocols-wlr = { version = "0.2", features = ["client"] }
zbus = "3"
