[package]
name = "observer_dispatch"
version = "0.1.0"
edition = "2021"
publish = false

[dependencies]
bevy = { version = "0.15", default-features = false, features = ["bevy_picking", "bevy_ui", "bevy_window", "bevy_render", "bevy_core_pipeline"] }
