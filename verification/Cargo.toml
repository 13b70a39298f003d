[package]
name = "arknights_story_reader"
version = "0.1.0"
edition = "2021"
publish = false

[dependencies]
unicode-normalization = "*"
rusqlite = { version = "*", features = ["bundled"] }
serde = { version = "*", features = ["derive"] }
serde_json = "*"
