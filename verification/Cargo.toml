[package]
name = "heroes_of_rust"
version = "0.1.0"
edition = "2021"
publish = false

[dependencies]
rand = "=0.8.8"
serde = { version = "=1.0.229", features = ["derive"] }
ron = "=0.12.3"
bevy = { version = "=0.17.3", default-features = false, features = ["bevy_ui", "bevy_sprite", "bevy_text", "bevy_state", "default_font"] }
