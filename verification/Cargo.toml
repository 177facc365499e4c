[package]
name = "nuklear_backend_gfx"
version = "0.1.0"
edition = "2021"
publish = false

[dependencies]
gfx = "=0.18.3"
nuklear-rust = "*"
