[package]
name = "muxing"
version = "0.1.0"
edition = "2021"
publish = false

[dependencies]
ffmpeg-next = "4.4"
ffmpeg-sys-next = "4.4"
