[package]
name = "ipscanner"
version = "0.1.0"
edition = "2021"
publish = false

[dependencies]
ipnet = "2.11"
serde = { version = "1", features = ["derive"] }
serde_json = "1"
csv = "1"
dns-lookup = "2"
rayon = "1"
if-addrs = "0.13"
ipconfig = "0.3"
rust_xlsxwriter = "0.90"
eframe = { version = "0.32", default-features = false, features = ["default_fonts", "glow", "x11"] }
egui_extras = "0.32"
rfd = "0.15"
