[package]
name = "replai"
version = "0.1.0"
edition = "2021"
publish = false

[dependencies]
unicode-segmentation = "=1.13.3"
unicode-width = "=0.2.3"
rustix = { version = "=1.1.6", features = ["termios", "fs", "event", "stdio"] }

[dev-dependencies]
vt100 = "*"
