[package]
name = "touchhle"
version = "0.1.0"
edition = "2021"
publish = false

[dependencies]
plist = "*"
regex = "*"
rusqlite = { version = "*", features = ["bundled"] }
sdl2 = "*"
sdl2-sys = "*"
