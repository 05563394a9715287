[package]
name = "rusttracer"
version = "0.1.0"
edition = "2021"
publish = false

[dependencies]
rand = "0.7"
num = "0.4"
rayon = "1"
overload = "0.1"
image = { version = "0.23", default-features = false, features = ["png"] }
