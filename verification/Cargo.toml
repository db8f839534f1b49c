[package]
name = "prose"
version = "0.1.0"
edition = "2021"
publish = false

[dependencies]
yew = "0.18"
web-sys = { version = "0.3", features = ["Window", "Document", "Element", "Node", "console"] }

[dev-dependencies]
nom = "7"
