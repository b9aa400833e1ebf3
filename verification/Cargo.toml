[package]
name = "bible_app"
version = "0.1.0"
edition = "2021"
publish = false

[dependencies]
rusqlite = { version = "=0.40.2", features = ["bundled"] }
serde = { version = "=1.0.229", features = ["derive"] }
eframe = { version = "=0.36.2", default-features = false, features = ["glow", "persistence", "x11"] }
egui = { version = "=0.36.2", default-features = false }
