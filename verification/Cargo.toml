[package]
name = "rug"
version = "0.1.0"
edition = "2021"
publish = false

[dependencies]
libm = "*"
roxmltree = "*"
svgtypes = "*"
