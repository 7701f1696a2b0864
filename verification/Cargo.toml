[package]
name = "focuswm"
version = "0.1.0"
edition = "2021"
publish = false

[dependencies]
anyhow = "1"
async-channel = "2"
chrono = "=0.4.45"
dirs = "*"
env_logger = "*"
glow = "*"
libc = "0.2"
log = "0.4"
octocrab = "=0.40.0"
serde = { version = "1", features = ["derive"] }
serde_json = "1"
smithay = { version = "=0.7.0", default-features = false, features = ["wayland_frontend", "xwayland"] }
tokio = { version = "1", features = ["rt", "rt-multi-thread"] }
xkbcommon = "*"
