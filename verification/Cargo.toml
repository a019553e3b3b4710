[package]
name = "chip8"
version = "0.1.0"
edition = "2021"
publish = false

[dependencies]
nfd = "*"
rand = "0.8"
sdl2 = "*"
spin_sleep = "*"
