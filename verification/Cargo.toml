[package]
name = "ballast_bench"
version = "0.1.0"
edition = "2021"
publish = false

[dependencies]
eyre = "0.6"
itertools = "*"
rand = "0.8"
tempfile = "3"
