[package]
name = "navagfx_engine"
version = "0.1.0"
edition = "2021"
publish = false

[dependencies]
bytemuck = { version = "1", features = ["derive"] }
glam = { version = "0.30", features = ["bytemuck"] }
image = { version = "0.25", default-features = false, features = ["png", "jpeg"] }
log = "0.4"
simple_logger = "5"
smol = "2"
wgpu = "26"
winit = "0.30"
