[package]
name = "gitamicus"
version = "0.1.0"
edition = "2021"
publish = false

[dependencies]
git2 = { version = "*", default-features = false }
chrono = "*"
directories = "*"
sys-locale = "*"
