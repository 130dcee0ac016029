[package]
name = "mobcam"
version = "0.1.0"
edition = "2021"
publish = false

[dependencies]
plist = "1"
clap = { version = "4", features = ["derive"] }
libc = "0.2"
v4l = { version = "0.14", default-features = false, features = ["v4l2"] }
