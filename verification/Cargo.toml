[package]
name = "xilous_stratagems_manager"
version = "0.1.0"
edition = "2021"
publish = false

[dependencies]
anyhow = "=1.0.104"
eframe = { version = "=0.37.0", default-features = false, features = ["glow", "default_fonts", "x11"] }
egui = "=0.37.0"
fast_image_resize = { version = "=6.1.0", features = ["image", "only_u8x4"] }
image = { version = "=0.25.10", default-features = false, features = ["png", "ico"] }
rayon = "=1.12.0"
resvg = { version = "=0.49.0", default-features = false }
serde = { version = "=1.0.229", features = ["derive"] }
serde_json = "=1.0.154"
toml = "=1.1.8"
toml_edit = "=0.25.17"
tracing = "=0.1.44"
tracing-appender = "=0.2.5"
tracing-subscriber = "=0.3.23"
