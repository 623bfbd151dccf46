[package]
name = "oxin"
version = "0.1.0"
edition = "2021"
publish = false

[dependencies]
smithay = { version = "=0.7.0", default-features = false }
image = { version = "=0.25.10", default-features = false, features = ["png", "jpeg"] }
libc = "=0.2.191"
xcursor = "=0.3.11"
