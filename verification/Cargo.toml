[package]
name = "copar"
version = "0.1.0"
edition = "2021"
publish = false

[dependencies]
clap = { version = "=4.6.7", features = ["derive"] }
indexmap = "=2.14.2"
stringcase = "=1.0.0"

[dev-dependencies]
ordered-float = "=5.5.0"
