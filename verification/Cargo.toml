[package]
name = "termpp"
version = "0.1.0"
edition = "2021"
publish = false

[dependencies]
tokio = { version = "1", features = ["sync", "rt", "rt-multi-thread", "time"] }
unicode-width = "0.2"
vte = "0.13"
serde = { version = "1", features = ["derive"] }
toml = "0.8"
dirs = "5"
anyhow = "1"
portable-pty = "0.8"
arboard = { version = "3", default-features = false }
env_logger = { version = "0.11", default-features = false }
iced = { version = "0.14", default-features = false, features = ["tiny-skia", "canvas", "tokio", "x11"] }
