[package]
name = "locker"
version = "0.1.0"
edition = "2021"
publish = false

[dependencies]
chrono = "0.4"
fontdue = "0.9"
image = { version = "0.25", default-features = false, features = ["bmp", "dds", "exr", "ff", "gif", "hdr", "ico", "jpeg", "png", "pnm", "qoi", "tga", "tiff", "webp"] }
libc = "0.2"
softbuffer = "0.4"
winit = "0.30"
