[package]
name = "chart_o_matic"
version = "0.1.0"
edition = "2021"
publish = false

[dependencies]
itertools = "=0.15.0"
serde = { version = "=1.0.229", features = ["derive"] }
serde_json = "=1.0.154"
anyhow = "=1.0.104"
docx-rust = "=0.1.11"
eframe = { version = "=0.32.3", default-features = false, features = ["default_fonts", "glow", "x11", "persistence"] }
egui_autocomplete = { version = "=11.0.0", features = ["serde"] }
egui_dnd = "=0.13.0"
egui_path_picker = "=0.2.0"
catppuccin-egui = { version = "=5.7.0", default-features = false, features = ["egui32"] }
rfd = { version = "=0.16.1", default-features = false, features = ["xdg-portal", "tokio"] }
tokio = { version = "=1.54.1", features = ["rt-multi-thread"] }
