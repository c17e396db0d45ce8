[package]
name = "meme_exif"
version = "0.1.0"
edition = "2021"
publish = false

[dependencies]
bson = "2"
indicatif = "0.17"
rexiv2 = "0.10"
serde = { version = "1", features = ["derive"] }
serde_derive = "1"
