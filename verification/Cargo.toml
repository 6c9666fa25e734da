[package]
name = "stl_thumb"
version = "0.5.0"
edition = "2021"
publish = false

[dependencies]
ahash = "*"
bytemuck = { version = "*", features = ["derive"] }
cgmath = { version = "*", features = ["mint"] }
clap = "*"
font8x8 = "*"
image = { version = "*", default-features = false, features = ["png", "jpeg", "gif", "ico", "bmp"] }
libc = "*"
log = "*"
mint = "*"
pollster = "*"
quick-xml = "*"
stderrlog = "*"
stl_io = "*"
threemf = "*"
tobj = "*"
wgpu = "*"
winit = "*"
zip = "*"
