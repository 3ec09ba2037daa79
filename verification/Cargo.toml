[package]
name = "collision_editor"
version = "0.1.0"
edition = "2021"
publish = false

[dependencies]
anyhow = "*"
eframe = { version = "*", default-features = false }
image = { version = "*", default-features = false }
rfd = { version = "*", default-features = false }
serde = { version = "*", features = ["derive"] }
serde_json = "*"
