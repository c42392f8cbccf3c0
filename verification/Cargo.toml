[package]
name = "rofi_bookmarks"
version = "0.1.0"
edition = "2021"
publish = false

[dependencies]
indexmap = { version = "=2.14.2", features = ["serde"] }
open = "=5.4.5"
serde = { version = "=1.0.229", features = ["derive"] }
toml = { version = "=1.1.8", features = ["preserve_order"] }
