[package]
name = "pfengine"
version = "0.1.0"
edition = "2021"
publish = false

[dependencies]
fixed = "1"
ggrs = "0.11"
serde = { version = "1", features = ["derive"] }
macroquad = "0.4"
getrandom = { version = "0.2", features = ["custom"] }
