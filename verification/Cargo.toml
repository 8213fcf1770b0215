[package]
name = "sheetcalc"
version = "0.1.0"
edition = "2021"
publish = false

[dependencies]
clap = { version = "4", features = ["derive"] }
copypasta = "0.10"
rand = "0.8"
ratatui = "0.29"
