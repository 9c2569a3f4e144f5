[package]
name = "imgfilter"
version = "0.1.0"
edition = "2021"
publish = false

[dependencies]
image = "=0.24.9"
img-parts = "=0.3.3"
anyhow = "=1.0.104"
clap = { version = "=4.6.7", features = ["derive"] }
inquire = "=0.7.5"
