[package]
name = "qfind"
version = "0.1.0"
edition = "2021"
publish = false

[dependencies]
dirs = "*"
tempfile = "*"
gtk4 = "*"
image = { version = "*", default-features = false, features = ["png", "jpeg", "gif", "bmp", "ico", "tiff", "webp"] }
glow = "*"
libloading = "*"
zbus = "*"
async-channel = "*"
