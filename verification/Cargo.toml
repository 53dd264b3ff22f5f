[package]
name = "monocle"
version = "0.1.0"
edition = "2021"
publish = false

[dependencies]
pulldown-cmark = "*"
dirs = "*"
notify = "*"
rfd = { version = "*", default-features = false }
tauri = { version = "2", default-features = false }
