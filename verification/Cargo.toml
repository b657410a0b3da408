[package]
name = "mate_rov"
version = "0.1.0"
edition = "2021"
publish = false

[dependencies]
anyhow = "1"
rgb = "0.8"
rppal = "*"
