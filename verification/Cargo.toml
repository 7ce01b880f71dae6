[package]
name = "gdsplot"
version = "0.1.0"
edition = "2021"
publish = false

[dependencies]
getopts = "*"
libc = "*"
cairo-rs = { version = "*", default-features = false }
