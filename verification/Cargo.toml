[package]
name = "laundry_machine_mqtt"
version = "0.1.0"
edition = "2021"
publish = false

[dependencies]
eframe = { version = "=0.29.1", default-features = false, features = ["glow", "persistence", "x11"] }
egui = { version = "=0.29.1", default-features = false }
egui_extras = { version = "=0.29.1", default-features = false, features = ["http", "image"] }
image = { version = "=0.25.10", default-features = false, features = ["jpeg", "png"] }
rumqttc = { version = "=0.24.0", default-features = false }
serde = { version = "=1.0.229", features = ["derive"] }
serde_json = "=1.0.154"
