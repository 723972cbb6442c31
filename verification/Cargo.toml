[package]
name = "lienzo"
version = "0.1.7"
edition = "2021"
publish = false

[dependencies]
serde = { version = "1", features = ["derive"] }
serde_json = "1"
ecolor = "*"
egui = "*"
eframe = { version = "*", default-features = false, features = ["default_fonts", "glow", "x11", "persistence"] }
image = { version = "*", default-features = false, features = ["png"] }
rfd = "*"
arboard = "*"
