[package]
name = "korangar"
version = "0.1.0"
edition = "2021"
publish = false

[dependencies]
yazi = "*"
flate2 = "*"
