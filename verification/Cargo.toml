[package]
name = "num_rational_parse"
version = "0.1.0"
edition = "2021"
publish = false

[dependencies]
num-rational = "*"
