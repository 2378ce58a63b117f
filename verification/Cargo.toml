[package]
name = "pedal_bridge"
version = "0.1.0"
edition = "2021"
publish = false

[dependencies]
midir = "*"
evdev = "*"
