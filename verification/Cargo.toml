[package]
name = "bevy_voxels"
version = "0.1.0"
edition = "2021"
publish = false

[dependencies]
bevy = { version = "0.15", default-features = false, features = ["bevy_asset", "bevy_color", "bevy_core_pipeline", "bevy_mesh_picking_backend", "bevy_pbr", "bevy_picking", "bevy_render", "bevy_state", "bevy_text", "bevy_ui", "bevy_window", "default_font", "multi_threaded", "png"] }
bevy_asset_loader = { version = "0.22", default-features = false }
bevy_common_assets = { version = "0.12", features = ["ron"] }
bitcode = "0.6"
fastnoise2 = "0.3"
flate2 = "1"
serde = { version = "1", features = ["derive"] }
