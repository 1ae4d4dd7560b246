[package]
name = "conway_life"
version = "0.1.0"
edition = "2021"
publish = false

[dependencies]
clap = { version = "3", features = ["derive"] }
macroquad = "0.3"
