[package]
name = "be_tween"
version = "0.1.0"
edition = "2021"
publish = false

[dependencies]
bevy = { version = "=0.16.1", default-features = false, features = ["std", "bevy_color", "bevy_log", "bevy_sprite", "bevy_ui"] }
dyn-clone = "=1.0.20"
