[package]
name = "wie"
version = "0.1.0"
edition = "2021"
publish = false

[dependencies]
ab_glyph = "0.2"
anyhow = "1"
arm32_cpu = "=0.1.2"
bytemuck = "=1.25.2"
clap = { version = "4", features = ["derive"] }
fast_image_resize = "=6.1.0"
gilrs = "0.11"
hqx = "=0.1.1"
image = { version = "=0.25.10", default-features = false, features = ["bmp", "gif", "jpeg", "png"] }
lazy_static = "1"
midir = "0.11"
num-traits = "0.2"
rustysynth = "=1.3.8"
softbuffer = "0.4"
tracing = "0.1"
tracing-subscriber = { version = "0.3", features = ["env-filter"] }
winit = "0.30"
