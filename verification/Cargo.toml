[package]
name = "pc-cleaner"
version = "0.1.0"
edition = "2021"
publish = false

[dependencies]
twox-hash = "2"
serde = { version = "1", features = ["derive"] }
serde_json = "1"
clap = { version = "4", features = ["derive"] }
eframe = { version = "0.31", default-features = false, features = ["default_fonts", "glow", "x11"] }
egui = "0.31"
fontdb = "0.23"
