[package]
name = "md-preview"
version = "0.1.0"
edition = "2021"
publish = false

[dependencies]
pulldown-cmark = { version = "0.13", default-features = false, features = ["html"] }
notify-debouncer-mini = "*"
tao = "*"
wry = "*"
objc2 = "*"
objc2-app-kit = "*"
objc2-foundation = "*"
block2 = "*"
