[package]
name = "raytracer"
version = "0.1.0"
edition = "2021"
publish = false

[dependencies]
rand = "=0.8.8"
image = { version = "=0.23.14", default-features = false, features = ["jpeg"] }
indicatif = "=0.16.2"
console = "0.16"
