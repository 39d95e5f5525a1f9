[package]
name = "jffs2_reader"
version = "0.1.0"
edition = "2021"
publish = false

[dependencies]
flate2 = "1"
lzma-rs = "0.3"
anyhow = "1"
memmap = "0.7"
