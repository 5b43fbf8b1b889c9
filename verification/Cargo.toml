[package]
name = "wfinfo"
version = "0.1.0"
edition = "2021"
publish = false

[dependencies]
global-hotkey = "0.5"
image = { version = "0.24", default-features = false, features = ["png"] }
notify = "6"
notify-debouncer-full = "0.3"
tesseract = "0.15"
