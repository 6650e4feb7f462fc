[package]
name = "pixel_sort"
version = "0.1.0"
edition = "2021"
publish = false

[dependencies]
image = "*"
rand = "*"
rgb = "*"
structopt = "*"
