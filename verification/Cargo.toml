[package]
name = "kime_window"
version = "0.1.0"
edition = "2021"
publish = false

[dependencies]
ahash = "*"
anyhow = "*"
pico-args = "*"
quick-xml = "*"
xdg = "*"
