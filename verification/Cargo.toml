[package]
name = "anantham_core"
version = "0.1.0"
edition = "2021"
publish = false

[dependencies]
ash = "=0.38.0+1.3.281"
ash-window = "=0.13.0"
bevy = { version = "=0.17.3", default-features = false, features = ["std", "bevy_asset", "bevy_log", "bevy_state", "bevy_window", "bevy_winit", "x11"] }
bytemuck = { version = "=1.25.2", features = ["derive"] }
directories = "=6.0.0"
futures-lite = "=2.6.1"
gpu-allocator = { version = "=0.27.0", default-features = false, features = ["vulkan"] }
ron = "=0.11.0"
serde = { version = "=1.0.229", features = ["derive"] }
thiserror = "=2.0.21"
walkdir = "=2.5.0"
