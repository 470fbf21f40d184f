[package]
name = "indiserver_ui"
version = "0.1.0"
edition = "2021"
publish = false

[dependencies]
dirs = "5"
eframe = { version = "0.22", default-features = false, features = ["glow"] }
