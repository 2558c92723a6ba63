[package]
name = "fractal_renderer"
version = "0.1.0"
edition = "2021"
publish = false

[dependencies]
rayon = "1"
num = "0.4"
num-complex = "0.4"
pixels = "0.13"
winit = "0.28"
winit_input_helper = "0.14"
