[package]
name = "text_image_generator"
version = "0.1.0"
edition = "2021"
publish = false

[dependencies]
conv = "0.3"
cosmic-text = "0.11"
image = "0.24"
imageproc = "0.23"
indexmap = "2"
nalgebra = "0.32"
numpy = "0.20"
once_cell = "1"
pyo3 = "0.20"
rand = "0.8"
rand_distr = "0.4"
serde = { version = "1", features = ["derive"] }
serde_json = "1"
serde_yaml = "0.9"
utf8-width = "0.1"
