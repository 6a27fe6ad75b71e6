[package]
name = "imagine"
version = "0.1.0"
edition = "2021"
publish = false

[dependencies]
bitfrob = "=1.3.2"
miniz_oxide = "=0.9.1"
bytemuck = { version = "=1.25.2", features = ["derive", "min_const_generics"] }
pixel_formats = "=0.1.5"
wide = "=1.7.1"
