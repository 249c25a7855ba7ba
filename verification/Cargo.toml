[package]
name = "emoji_pack"
version = "0.1.0"
edition = "2021"
publish = false

[dependencies]
imghdr = "*"
zip = "0.6"
walkdir = "*"
clap = { version = "4", features = ["derive"] }

[dev-dependencies]
serde_json = "*"
