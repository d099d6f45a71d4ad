[package]
name = "screen_ocr"
version = "0.1.0"
edition = "2021"
publish = false

[dependencies]
bytemuck = "=1.25.2"
env_logger = { version = "=0.10.2", default-features = false }
html_parser = "=0.6.3"
pollster = "=0.3.0"
tokio = { version = "=1.54.1", default-features = false, features = ["rt", "rt-multi-thread"] }
wgpu = { version = "=0.15.1", default-features = false, features = ["wgsl"] }
wgpu_glyph = "=0.19.0"
winit = { version = "=0.28.7", default-features = false, features = ["x11"] }
