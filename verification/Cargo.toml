[package]
name = "composite"
version = "0.1.0"
edition = "2021"
publish = false

[dependencies]
clap = { version = "=3.2.25", features = ["derive"] }
exr = "=1.74.2"
image = { version = "=0.24.9", default-features = false, features = ["webp"] }
itertools = "=0.10.5"
webp = "=0.2.6"
