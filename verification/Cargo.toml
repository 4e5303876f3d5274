[package]
name = "rustc_log_viewer"
version = "0.1.0"
edition = "2021"
publish = false

[dependencies]
anyhow = "*"
bumpalo = "*"
logparse = "*"
eframe = { version = "*", default-features = false, features = ["glow", "default_fonts", "x11"] }
