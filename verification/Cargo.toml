[package]
name = "wav1c"
version = "0.1.0"
edition = "2021"
publish = false

[dependencies]
libheif-rs = "*"
