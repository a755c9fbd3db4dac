[package]
name = "sitegen"
version = "0.1.0"
edition = "2021"
publish = false

[dependencies]
anyhow = "*"
argh = "*"
hayagriva = "*"
jotdown = "*"
serde = { version = "*", features = ["derive"] }
serde_json = "*"
tera = "*"
tracing = "*"
tracing-subscriber = "*"
