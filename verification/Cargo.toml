[package]
name = "stmax_control"
version = "0.1.0"
edition = "2021"
publish = false

[dependencies]
eframe = { version = "*", default-features = false, features = ["default_fonts", "glow", "x11"] }
tokio = { version = "1", features = ["rt-multi-thread", "sync", "time", "io-util", "macros"] }
tokio-serial = "*"
