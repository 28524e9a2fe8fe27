[package]
name = "bmpdisk"
version = "0.1.0"
edition = "2021"
publish = false

[dependencies]
bmp = "=0.5.0"
fast_hilbert = "=1.0.1"
lazy_static = "=1.5.1"
nbdkit = "=0.2.0"
