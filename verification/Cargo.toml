[package]
name = "pixel_evolve"
version = "0.1.0"
edition = "2021"
publish = false

[dependencies]
rand = "0.8"
gif = "*"
image = { version = "*", default-features = false, features = ["png"] }
