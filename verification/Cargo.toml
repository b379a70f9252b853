[package]
name = "minimap_renderer"
version = "0.1.0"
edition = "2021"
publish = false

[dependencies]
image = { version = "=0.25.10", default-features = false }
tiny-skia = "=0.11.4"
ab_glyph = "=0.2.32"
tracing = "=0.1.44"
