[package]
name = "why_do_you_bot"
version = "0.1.0"
edition = "2021"
publish = false

[dependencies]
image = "0.23"
imageproc = "0.22"
rusttype = "0.9"
rand = "0.8"
uuid = { version = "1", features = ["v4"] }
reqwest = { version = "0.11", default-features = false, features = ["blocking", "multipart"] }

[dev-dependencies]
ttf-noto-sans = "*"
