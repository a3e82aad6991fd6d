[package]
name = "n_renderer"
version = "0.1.0"
edition = "2021"
publish = false

[dependencies]
winit = { version = "0.29", default-features = false, features = ["rwh_05", "x11"] }
