[package]
name = "graphs"
version = "0.1.0"
edition = "2021"
publish = false

[dependencies]
clap = { version = "4", features = ["cargo"] }
csv = "1"
plotters = "0.3"
serde = { version = "1", features = ["derive"] }
