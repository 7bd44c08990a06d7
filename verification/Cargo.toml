[package]
name = "hexy_reversi"
version = "0.1.0"
edition = "2021"
publish = false

[dependencies]
rodio = "*"
