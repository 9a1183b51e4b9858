[package]
name = "comparison_of_maps"
version = "0.1.0"
edition = "2021"
publish = false

[dependencies]
fxhash = "*"
packed_simd = "*"
