[package]
name = "breakout"
version = "0.1.0"
edition = "2021"
publish = false

[dependencies]
freetype-rs = "0.24"
gl = "0.11"
glutin = "0.19"
