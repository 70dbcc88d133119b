[package]
name = "unitypackage"
version = "0.1.0"
edition = "2021"
publish = false

[dependencies]
clap = { version = "3", features = ["derive"] }
flate2 = "1"
miette = "5"
serde = { version = "1", features = ["derive"] }
serde_json = "1"
tar = "0.4"
tempfile = "3"
thiserror = "1"
tracing = "0.1"
tracing-subscriber = "0.3"
zip = { version = "0.6", default-features = false, features = ["deflate"] }
