[package]
name = "rust_browser_handler"
version = "0.1.0"
edition = "2021"
publish = false

[dependencies]
regex = "=1.13.1"
url = "=2.5.8"
clap = { version = "=4.6.7", features = ["derive"] }
dirs = "=5.0.1"
env_logger = "=0.11.11"
log = "=0.4.35"
serde_json = "=1.0.154"
slint = { version = "=1.18.1", default-features = false, features = ["std", "compat-1-2", "image-default-formats"] }
winapi = { version = "=0.3.9", features = ["wincon", "winuser"] }
winreg = "=0.52.0"
