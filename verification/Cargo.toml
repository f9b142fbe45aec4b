[package]
name = "pingme"
version = "0.1.0"
edition = "2021"
publish = false

[dependencies]
chrono = "0.4"
clap = { version = "4", features = ["derive"] }
diesel = { version = "2", features = ["sqlite", "chrono"] }
home = "0.5"
notify-rust = "4"
prettytable-rs = "0.10"
