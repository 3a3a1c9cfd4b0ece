[package]
name = "rtlib"
version = "0.1.0"
edition = "2021"
publish = false

[dependencies]
rand = "0.8"
clap = "3"
rayon = "1"
libm = "0.2"
num-traits = "0.2"
libmath = "*"
stb_image_rust = "*"
