[package]
name = "rustfs"
version = "0.1.0"
edition = "2021"
publish = false

[dependencies]
fuser = { version = "*", default-features = false }
libc = "*"
