[package]
name = "alcatraz"
version = "0.1.0"
edition = "2021"
publish = false

[dependencies]
anyhow = "=1.0.104"
bevy = { version = "=0.17.3", default-features = false, features = ["std", "bevy_asset", "bevy_camera", "bevy_image", "bevy_log", "bevy_sprite", "bevy_state", "bevy_window", "png"] }
bevy_replicon = "0.36"
bevy_replicon_renet = "0.12"
clap = { version = "=4.6.7", features = ["derive"] }
fastrand = "=2.5.0"
ron = "=0.12.2"
serde = { version = "=1.0.229", features = ["derive"] }
sha2 = "=0.10.9"
walkdir = "=2.5.0"
