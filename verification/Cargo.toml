[package]
name = "video_ascii_cli"
version = "0.1.0"
edition = "2021"
publish = false

[dependencies]
clap = { version = "4", features = ["derive"] }
font8x8 = "0.3"
image = { version = "0.25", default-features = false, features = ["png"] }
tempfile = "3"
thiserror = "1"
