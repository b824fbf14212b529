[package]
name = "shortpath"
version = "0.1.0"
edition = "2021"
publish = false

[dependencies]
dirs = "*"
itertools = "0.10"
