[package]
name = "lsb_stego"
version = "0.1.0"
edition = "2021"
publish = false

[dependencies]
raster = "*"
