[package]
name = "keyboard-chatter-fix"
version = "0.1.0"
edition = "2021"
publish = false

[dependencies]
evdev = { version = "0.12", features = ["tokio"] }
ini = "1.3"
tokio = { version = "1", features = ["macros", "rt-multi-thread", "time"] }
