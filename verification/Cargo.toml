[package]
name = "comet"
version = "1.0.0"
edition = "2021"
publish = false

[dependencies]
sha2 = "*"
serde = { version = "*", features = ["derive"] }
serde_yaml = "*"
reqwest = { version = "*", default-features = false, features = ["blocking"] }
tar = "*"
clap = { version = "*", features = ["derive"] }
