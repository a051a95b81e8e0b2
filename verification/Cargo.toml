[package]
name = "texdec"
version = "0.1.0"
edition = "2021"
publish = false

[dependencies]
lzma-rs = "*"
zstd = "*"
lzham = "*"
image = "*"
