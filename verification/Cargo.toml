[package]
name = "lazy_assets"
version = "0.1.0"
edition = "2021"
publish = false

[dependencies]
async-trait = "0.1"
bevy = { version = "0.10", default-features = false, features = ["bevy_asset", "bevy_core_pipeline", "bevy_render", "bevy_sprite", "png"] }
rand = "0.8"
ron = "0.8"
serde = { version = "1", features = ["derive"] }
