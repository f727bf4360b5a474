[package]
name = "iconview"
version = "0.1.0"
edition = "2021"
publish = false

[dependencies]
ico = "*"
image = "*"
serde = { version = "*", features = ["derive"] }
rexif = "*"
trash = "*"
wallpaper = "*"
winreg = "*"
winapi = { version = "*", features = ["shellapi", "wingdi", "winuser", "winver", "minwindef"] }
windows-sys = { version = "*", features = ["Win32_UI_Shell", "Win32_Foundation"] }
