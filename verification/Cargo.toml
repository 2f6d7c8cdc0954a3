[package]
name = "path_offset"
version = "0.1.0"
edition = "2021"
publish = false

[dependencies]
lyon = "=1.0.19"
flo_curves = "=0.8.1"
