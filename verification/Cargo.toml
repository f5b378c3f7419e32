[package]
name = "ecs"
version = "0.1.0"
edition = "2021"
publish = false

[dependencies]
anyhow = "=1.0.104"
bytemuck = "=1.25.2"
vulkanalia = { version = "=0.35.0", features = ["libloading", "provisional", "window"] }
winit = "=0.29.15"
