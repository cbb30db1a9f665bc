[package]
name = "renderer"
version = "0.1.0"
edition = "2021"
publish = false

[dependencies]
array2d = "*"
clap = { version = "*", features = ["derive"] }
gif = "*"
image = { version = "*", default-features = false }
rayon = "*"
sdl2 = "*"
