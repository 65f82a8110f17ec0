[package]
name = "video_preview"
version = "0.1.0"
edition = "2021"
publish = false

[dependencies]
egui = { version = "*", default-features = false }
ffmpeg-next = "*"
humansize = "*"
