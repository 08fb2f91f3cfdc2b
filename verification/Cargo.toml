[package]
name = "mandelbrot"
version = "0.1.0"
edition = "2021"
publish = false

[dependencies]
colorgrad = "=0.5.0"
image = { version = "=0.25.10", default-features = false, features = ["png"] }
rayon = "=1.12.0"
