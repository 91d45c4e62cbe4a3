[package]
name = "glyph_mesh"
version = "0.1.0"
edition = "2021"
publish = false

[dependencies]
glam = "*"
lyon_tessellation = "*"
ttf-parser = "*"
