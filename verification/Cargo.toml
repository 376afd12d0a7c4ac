[package]
name = "keyhint"
version = "0.1.0"
edition = "2021"
publish = false

[dependencies]
fuzzy-matcher = "0.3"
serde = { version = "1", features = ["derive"] }
easier = "*"
accessibility = "*"
core-foundation = "*"
active-win-pos-rs = "*"
macos-accessibility-client = "*"
mouce = "*"
uiautomation = "*"
