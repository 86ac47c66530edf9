[package]
name = "slow_text_outline"
version = "0.1.0"
edition = "2021"
publish = false

[dependencies]
bevy = { version = "0.17", default-features = false, features = ["std", "bevy_ui_render", "bevy_sprite_render", "bevy_text", "bevy_window"] }
