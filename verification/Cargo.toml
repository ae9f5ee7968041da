[package]
name = "voxel_sandbox"
version = "0.1.0"
edition = "2021"
publish = false

[dependencies]
bevy = { version = "=0.18.1", default-features = false, features = ["std", "async_executor", "bevy_asset", "bevy_window", "bevy_render", "bevy_core_pipeline", "bevy_pbr", "bevy_light", "bevy_camera", "bevy_mesh", "bevy_image", "png", "bevy_ui", "bevy_ui_render", "bevy_color", "keyboard", "mouse"] }
noise = "=0.9.0"
serde = { version = "=1.0.229", features = ["derive"] }
web-sys = { version = "=0.3.107", features = ["Window", "Document", "Element"] }
