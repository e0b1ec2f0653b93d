[package]
name = "rustvidya"
version = "0.1.0"
edition = "2021"
publish = false

[dependencies]
anyhow = "1"
crossterm = "*"
dotmax = "*"
image = { version = "*", default-features = false, features = ["png"] }
ratatui = "*"
