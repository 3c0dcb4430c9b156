[package]
name = "change_flare"
version = "0.1.0"
edition = "2021"
publish = false

[dependencies]
dotenvy = "0.15"
reqwest = { version = "0.12", features = ["blocking", "json"] }
serde = { version = "1", features = ["derive"] }
stunclient = "*"
ureq = { version = "2", features = ["json"] }
