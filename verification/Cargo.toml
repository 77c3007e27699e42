[package]
name = "tg_unblock"
version = "0.1.0"
edition = "2021"
publish = false

[dependencies]
aes = "0.8"
cipher = "0.4"
ctr = "0.9"
tokio = { version = "1", features = ["full"] }
tokio-tungstenite = { version = "0.21", features = ["native-tls"] }
tungstenite = "0.21"
futures-util = { version = "0.3", features = ["sink"] }
native-tls = "0.2"
eframe = { version = "0.22", default-features = false, features = ["default_fonts", "glow", "wayland"] }
winit = "0.28"
open = "5"
reqwest = { version = "0.11", features = ["blocking"] }
