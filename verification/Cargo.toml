[package]
name = "zro"
version = "0.1.0"
edition = "2021"
publish = false

[dependencies]
strsim = "=0.11.1"
csv = "=1.4.0"
serde = { version = "=1.0.229", features = ["derive"] }
eframe = { version = "=0.36.2", default-features = false, features = ["glow", "persistence", "x11"] }
egui = { version = "=0.36.2", default-features = false }
