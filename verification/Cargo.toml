[package]
name = "mandelbrot"
version = "0.1.0"
edition = "2021"
publish = false

[dependencies]
colorgrad = "0.6"
image = { version = "0.24", default-features = false, features = ["png"] }
show-image = "0.13"
text_io = "0.1"
