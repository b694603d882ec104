[package]
name = "image_index"
version = "0.1.0"
edition = "2021"
publish = false

[dependencies]
base64 = "0.22"
clap = "4"
image = { version = "0.25", default-features = false, features = ["jpeg"] }
rayon = "1"
rusqlite = "*"
walkdir = "2"
