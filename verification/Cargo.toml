[package]
name = "bevy_ui_dioxus"
version = "0.1.0"
edition = "2021"
publish = false

[dependencies]
bevy = { version = "0.11", default-features = false }
dioxus = { version = "0.4", default-features = false, features = ["macro", "hooks"] }
