[package]
name = "grimoire"
version = "0.1.0"
edition = "2021"
publish = false

[dependencies]
tiny-skia = "*"
cosmic-text = "*"
smithay-client-toolkit = "*"
wayland-client = "*"
serde = { version = "1", features = ["derive"] }
toml = "*"
image = { version = "*", default-features = false, features = ["png"] }
resvg = "*"
