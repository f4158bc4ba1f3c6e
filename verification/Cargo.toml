[package]
name = "gui_core"
version = "0.1.0"
edition = "2021"
publish = false

[dependencies]
slab = "=0.4.12"
winit = { version = "=0.27.5", default-features = false, features = ["x11"] }
hecs = "0.10"
thiserror = "1.0"
