[package]
name = "raytracer"
version = "0.1.0"
edition = "2021"
publish = false

[dependencies]
derive_more = "0.99"
glam = "0.24"
image = { version = "0.24", default-features = false, features = ["png", "jpeg", "tiff"] }
itertools = "0.10"
lerp = "*"
num = "0.4"
rand = "0.8"
rayon = "1"
