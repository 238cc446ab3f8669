[package]
name = "komorebi_bar"
version = "0.1.0"
edition = "2021"
publish = false

[dependencies]
chrono = "=0.4.45"
serde = { version = "=1.0.229", features = ["derive"] }
schemars = "=1.2.2"
windows = { version = "=0.58.0", features = ["Win32_Foundation", "Win32_UI_WindowsAndMessaging"] }
