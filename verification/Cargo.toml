[package]
name = "samurai_wm"
version = "0.1.0"
edition = "2021"
publish = false

[dependencies]
anyhow = "=1.0.104"
x11 = { version = "=2.21.0", features = ["xlib"] }
xcb = "=1.7.1"
