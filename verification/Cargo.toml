[package]
name = "raytracer"
version = "0.1.0"
edition = "2021"
publish = false

[dependencies]
eframe = { version = "0.22", default-features = false, features = ["default_fonts", "glow"] }
egui = "0.22"
env_logger = "0.10"
log = "0.4"
nalgebra = "0.32"
wasm-bindgen-futures = "0.4"
web-sys = { version = "0.3", features = ["Window"] }
