[package]
name = "mandelbrot_zoom"
version = "0.1.0"
edition = "2021"
publish = false

[dependencies]
image = { version = "*", default-features = false, features = ["rayon"] }
piston_window = "*"
rug = "*"
