[package]
name = "overseer"
version = "0.1.0"
edition = "2021"
publish = false

[dependencies]
anyhow = "1"
chrono = "0.4"
crossterm = "0.28"
dirs = "5"
image = { version = "0.25", default-features = false, features = ["png", "jpeg"] }
objc2 = "0.6"
objc2-core-audio = "0.3"
objc2-core-audio-types = "0.3"
objc2-core-foundation = "0.3"
objc2-foundation = "0.3"
ratatui = "0.29"
rustfft = "6"
serde = { version = "1", features = ["derive"] }
serde_json = "1"
sysinfo = "0.33"
unicode-width = "0.2"
ureq = { version = "2", features = ["json"] }
