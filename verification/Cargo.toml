[package]
name = "soul_engine"
version = "0.1.0"
edition = "2021"
publish = false

[dependencies]
rand = "0.9"
serde = { version = "1", features = ["derive"] }
serde_json = "1"
bytemuck = "1"
glam = "0.29"
bevy = { version = "0.16", default-features = false, features = ["bevy_render", "bevy_core_pipeline", "bevy_sprite", "bevy_state", "bevy_window", "bevy_gizmos", "bevy_log"] }
