[package]
name = "leagueaccounts"
version = "0.1.0"
edition = "2021"
publish = false

[dependencies]
regex = "1"
scraper = "*"
html-escape = "*"
urlencoding = "2"
serde = { version = "1", features = ["derive"] }
serde_json = "1"
keyring = { version = "3", features = ["windows-native"] }
reqwest = { version = "0.12", default-features = false, features = ["blocking", "rustls-tls"] }
arboard = { version = "3", default-features = false }
eframe = { version = "*", default-features = false, features = ["glow", "default_fonts", "x11"] }
image = { version = "0.25", default-features = false, features = ["webp"] }
windows-sys = { version = "0.59", features = ["Win32_Foundation", "Win32_System_Threading", "Win32_UI_Input_KeyboardAndMouse", "Win32_UI_WindowsAndMessaging"] }
