[package]
name = "i3owm"
version = "0.1.0"
edition = "2021"
publish = false

[dependencies]
chrono = "*"
clap = { version = "*", features = ["derive"] }
notify-rust = "*"
open_notify = "*"
openweathermap = "*"
