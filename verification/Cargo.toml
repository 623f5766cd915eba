[package]
name = "dithering"
version = "0.1.0"
edition = "2021"
publish = false

[dependencies]
argh = "0.1"
image = { version = "0.25", default-features = false, features = ["png", "jpeg"] }
rand = "0.8"
