[package]
name = "radio_conductor"
version = "0.1.0"
edition = "2021"
publish = false

[dependencies]
rfd = { version = "=0.14.1", default-features = false, features = ["gtk3"] }
rodio = { version = "=0.17.3", default-features = false, features = ["wav", "mp3"] }
symphonia = "=0.5.5"
