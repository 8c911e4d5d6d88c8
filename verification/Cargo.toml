[package]
name = "slip_codec"
version = "0.1.0"
edition = "2021"
publish = false

[dependencies]
noalloc-vec-rs = "*"
