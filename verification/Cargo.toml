[package]
name = "notion_core"
version = "0.1.0"
edition = "2021"
publish = false

[dependencies]
cmdline_words_parser = "*"
httpdate = "*"
reqwest = { version = "*", default-features = false, features = ["blocking"] }
tempfile = "*"
serde = { version = "*", features = ["derive"] }
serde_json = "*"
