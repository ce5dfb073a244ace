[package]
name = "bevy_craft"
version = "0.1.0"
edition = "2021"
publish = false

[dependencies]
rand = "0.8"
serde = { version = "1", features = ["derive"] }
bevy = { version = "0.15", default-features = false }
