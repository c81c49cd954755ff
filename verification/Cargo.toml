[package]
name = "gridterm"
version = "0.1.0"
edition = "2021"
publish = false

[dependencies]
serde_json = "1"
serde = { version = "1", features = ["derive"] }
alacritty_terminal = "0.26"
portable-pty = "0.9"
winit = { version = "0.30", default-features = false, features = ["rwh_06", "x11"] }
wgpu = { version = "29", default-features = false, features = ["std", "wgsl", "metal"] }
glyphon = "0.11"
bytemuck = { version = "1", features = ["derive"] }
pollster = "0.4"
arboard = { version = "3", default-features = false }
env_logger = "0.11"
tiny_http = "0.12"
ureq = { version = "2", features = ["json"] }
