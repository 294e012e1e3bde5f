[package]
name = "capture"
version = "0.1.0"
edition = "2021"
publish = false

[dependencies]
xcursor = "0.3"
pipewire = "0.8"
