[package]
name = "designspace"
version = "0.1.0"
edition = "2021"
publish = false

[dependencies]
quick-xml = { version = "0.31", features = ["serialize"] }
plist = "1"
serde = { version = "1", features = ["derive"] }
