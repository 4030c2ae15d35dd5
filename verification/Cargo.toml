[package]
name = "linux-it-guy-toolbox"
version = "0.1.0"
edition = "2021"
publish = false

[dependencies]
csv = "=1.4.0"
serde = { version = "=1.0.229", features = ["derive"] }
usvg = "=0.49.0"
resvg = "=0.49.0"
tiny-skia = "=0.12.0"
eframe = { version = "=0.37.0", default-features = false, features = ["x11", "glow"] }
