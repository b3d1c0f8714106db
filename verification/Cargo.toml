[package]
name = "cti"
version = "0.1.0"
edition = "2021"
publish = false

[dependencies]
zstd = "*"
lz4_flex = "*"
