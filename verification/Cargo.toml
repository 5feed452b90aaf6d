[package]
name = "glengine"
version = "0.1.0"
edition = "2021"
publish = false

[dependencies]
rustc-hash = "=2.1.3"
anyhow = "=1.0.104"
glam = "=0.30.10"
glium = "=0.36.0"
winit = "=0.30.13"
noise = "=0.9.0"
rclite = "=0.4.2"
image = { version = "=0.25.10", default-features = false, features = ["png", "jpeg"] }
imgui = "=0.12.0"
imgui-glow-renderer = "=0.13.0"
imgui-winit-support = "=0.13.0"
asset-importer = "=0.8.0"
