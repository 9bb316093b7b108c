[package]
name = "gpui_animation"
version = "0.1.0"
edition = "2021"
publish = false

[dependencies]
parking_lot = "0.12"
smol = "2"
