[package]
name = "ndbam"
version = "0.1.0"
edition = "2021"
publish = false

[dependencies]
crypto-hash = "*"
hex = "*"
walkdir = "*"
tempfile = "*"
