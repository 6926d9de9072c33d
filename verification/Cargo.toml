[package]
name = "velacritty_config"
version = "0.1.0"
edition = "2021"
publish = false

[dependencies]
toml = "0.8"
serde_yaml = "0.9"
serde = "1"
home = "0.5"
xdg = "2"
dirs = "5"
log = "0.4"
