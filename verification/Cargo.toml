[package]
name = "arm_control"
version = "0.1.0"
edition = "2021"
publish = false

[dependencies]
anyhow = "1"
bevy = { version = "0.9", default-features = false, features = ["bevy_asset", "bevy_render", "bevy_pbr", "bevy_core_pipeline", "bevy_winit", "x11"] }
bevy_egui = "0.17"
bevy_infinite_grid = "0.6"
bevy-inspector-egui = "0.15"
bevy_obj = "0.9"
ctrlc = "3"
iyes_loopless = "0.9"
serialport = { version = "4", default-features = false }
