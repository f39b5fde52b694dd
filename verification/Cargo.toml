[package]
name = "editor_core"
version = "0.1.0"
edition = "2021"
publish = false

[dependencies]
syntect = { version = "5", default-features = false, features = ["default-fancy"] }
ncurses = "6"
libc = "0.2"
