[package]
name = "craie"
version = "0.1.0"
edition = "2021"
publish = false

[dependencies]
accesskit = "=0.25.2"
arboard = { version = "=3.7.0", default-features = false }
bytemuck = { version = "=1.25.2", features = ["derive"] }
etagere = "=0.3.0"
libc = "=0.2.191"
martensite-accesskit-winit = "0.18.0"
napi = "=3.16.1"
napi-derive = "=3.7.0"
parley = "=0.11.1"
pollster = "=0.4.0"
swash = "=0.2.10"
taffy = { version = "=0.14.0", default-features = false, features = ["std", "flexbox", "content_size"] }
wgpu = "=30.0.1"
winit = "=0.31.0-beta.4"
