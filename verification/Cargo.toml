[package]
name = "zaru"
version = "0.1.0"
edition = "2021"
publish = false

[dependencies]
tinyvec = { version = "1", features = ["alloc"] }
anyhow = "1"
log = "0.4"
once_cell = "1"
nalgebra = { version = "*", default-features = false, features = ["std"] }
image = { version = "*", default-features = false, features = ["png", "jpeg", "gif"] }
zune-jpeg = "*"
tract-onnx = "*"
wonnx = "*"
pollster = "*"
