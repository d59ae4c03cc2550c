[package]
name = "keygrab"
version = "0.1.0"
edition = "2021"
publish = false

[dependencies]
anyhow = "=1.0.104"
env_logger = "=0.11.11"
log = "=0.4.34"
xcb = { version = "=1.7.1", features = ["xkb", "randr", "as-raw-xcb-connection"] }
xkbcommon = { version = "=0.9.0", features = ["x11"] }
