[package]
name = "windows_shortcuts"
version = "0.1.0"
edition = "2021"
publish = false

[dependencies]
anyhow = "*"
dirs = "*"
global-hotkey = "*"
image = { version = "*", default-features = false, features = ["png"] }
log = "*"
notify = "*"
open = "*"
simple_logger = "*"
tray-icon = "*"
winit = "*"
