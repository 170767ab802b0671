[package]
name = "gunny_launcher"
version = "0.1.0"
edition = "2021"
publish = false

[dependencies]
dirs = "5"
flate2 = "1"
serde = { version = "1", features = ["derive"] }
tar = "0.4"
toml = "0.8"
ureq = "2"
url = "2"
zip = { version = "2", default-features = false, features = ["deflate"] }
