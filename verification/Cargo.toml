[package]
name = "espresso"
version = "0.2.2"
edition = "2021"
publish = false

[dependencies]
anyhow = "1"
chrono = { version = "0.4", features = ["clock"] }
clap = { version = "4", features = ["derive"] }
core-foundation = "0.10"
core-foundation-sys = "0.8"
crossterm = "0.29"
libc = "0.2"
unicode-width = "0.2"
