[package]
name = "nes-render"
version = "0.1.0"
edition = "2021"
publish = false

[dependencies]
ansi_colours = "1"
anyhow = "1"
base64 = "0.22"
chafa-sys = "*"
clap = { version = "4", features = ["derive"] }
crc32fast = "1"
crossterm = "0.28"
flate2 = "1"
png = "0.17"
sdl2 = "*"
sixel-rs = "*"
tempfile = "3"
