[package]
name = "intcode"
version = "0.1.0"
edition = "2021"
publish = false

[dependencies]
itertools = "*"
lazy_static = "1"
regex = "1"
scan_fmt = "*"
