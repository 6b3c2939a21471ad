[package]
name = "volume_controller"
version = "1.2.0"
edition = "2021"
publish = false

[dependencies]
base64 = "0.22"
image = { version = "0.25", default-features = false, features = ["png", "jpeg"] }
libpulse-binding = "2"
openaction = "*"
resvg = { version = "*", default-features = false }
serde = { version = "1", features = ["derive"] }
serde_json = "1"
simplelog = "0.12"
tokio = { version = "1", features = ["macros", "rt-multi-thread", "sync", "time"] }
tux-icons = "*"
