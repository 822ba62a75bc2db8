[package]
name = "guit"
version = "0.1.0"
edition = "2021"
publish = false

[dependencies]
eframe = { version = "0.31", default-features = false, features = ["default_fonts", "glow", "persistence", "x11"] }
egui = "0.31"
egui_file = "0.22"
env_logger = "=0.11.11"
serde = { version = "=1.0.229", features = ["derive"] }
thiserror = "=2.0.21"
