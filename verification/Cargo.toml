[package]
name = "lira"
version = "0.1.0"
edition = "2021"
publish = false

[dependencies]
toml = "*"
noise = "*"
rand = "*"
image = "*"
walkdir = "*"
