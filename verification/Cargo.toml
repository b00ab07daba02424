[package]
name = "image_upscaling"
version = "0.1.0"
edition = "2021"
publish = false

[dependencies]
event_chains = "*"
image = { version = "*", default-features = false, features = ["png"] }
