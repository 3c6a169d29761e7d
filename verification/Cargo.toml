[package]
name = "oxide"
version = "0.1.0"
edition = "2021"
publish = false

[dependencies]
alacritty_terminal = "0.25"
anyhow = "1"
directories = "6"
futures = "0.3"
libc = "0.2"
notify = "8"
notify-debouncer-full = "0.6"
polling = "3"
serde = { version = "1", features = ["derive"] }
syntect = { version = "5", default-features = false, features = ["default-fancy"] }
toml = "0.9"
toml_edit = "0.23"
two-face = { version = "0.4", default-features = false, features = ["syntect-fancy"] }
unicode-width = "0.2"

[dev-dependencies]
serde_json = "1"
