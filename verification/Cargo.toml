[package]
name = "verse_lookup"
version = "0.1.0"
edition = "2021"
publish = false

[dependencies]
regex = "1"
rusqlite = { version = "*", features = ["functions"] }
iced = { version = "0.10", default-features = false }
