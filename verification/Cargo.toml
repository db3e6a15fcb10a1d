[package]
name = "connectdirect_precheck"
version = "0.2.0"
edition = "2021"
publish = false

[dependencies]
serde = { version = "1", features = ["derive"] }
serde_json = "1"
eframe = { version = "0.31", default-features = false, features = ["glow", "default_fonts", "x11"] }
rfd = "0.15"
