[package]
name = "game_translator"
version = "0.1.0"
edition = "2021"
publish = false

[dependencies]
anyhow = "1"
crossbeam-channel = "0.5"
device_query = "2"
dotenv = "0.15"
env_logger = "0.11"
image = { version = "0.24", default-features = false, features = ["png", "jpeg"] }
log = "0.4"
notify = "6"
reqwest = { version = "0.12", default-features = false, features = ["json", "rustls-tls"] }
serde = { version = "1", features = ["derive"] }
serde_json = "1"
tokio = { version = "1", features = ["rt-multi-thread"] }
urlencoding = "2"
widestring = "1"
winapi = { version = "0.3", features = ["winuser", "wingdi", "libloaderapi", "synchapi", "errhandlingapi", "winerror", "shellscalingapi", "windef", "minwindef"] }
