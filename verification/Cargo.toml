[package]
name = "lynx"
version = "0.1.0"
edition = "2021"
publish = false

[dependencies]
envy = "*"
serde = { version = "*", features = ["derive"] }
reqwest = { version = "*", default-features = false, features = ["blocking"] }
