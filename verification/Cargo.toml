[package]
name = "amrust"
version = "0.1.0"
edition = "2021"
publish = false

[dependencies]
anyhow = "1"
bytemuck = "1"
egui = "0.28"
egui_code_editor = "=0.2.9"
egui_extras = { version = "0.28", default-features = false }
egui_logger = "=0.5.0"
env_logger = { version = "0.11", default-features = false }
log = "0.4"
quick-xml = { version = "*", features = ["serialize"] }
serde = "1"
threemf = "*"
xml_dom = "0.2"
zip = { version = "2", default-features = false, features = ["deflate"] }
