[package]
name = "tile_world"
version = "0.1.0"
edition = "2021"
publish = false

[dependencies]
bevy = { version = "0.17", default-features = false, features = ["std", "multi_threaded", "bevy_asset", "bevy_render", "bevy_core_pipeline", "bevy_sprite", "bevy_sprite_render", "bevy_winit", "bevy_window", "bevy_log", "png", "x11"] }
bevy_framepace = "=0.20.1"
noise = "=0.9.0"
