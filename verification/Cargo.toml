[package]
name = "kaesar_view"
version = "0.1.0"
edition = "2021"
publish = false

[dependencies]
chrono = "=0.4.45"
fxhash = "=0.2.1"
png = "0.17"
sdl2 = "=0.38.0"
