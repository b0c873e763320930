[package]
name = "lunar"
version = "0.1.0"
edition = "2021"
publish = false

[dependencies]
anyhow = "*"
chumsky = "0.9"
clap = { version = "*", features = ["derive"] }
crossbeam = "*"
libffi = "*"
libloading = "*"
logos = "*"
serde = { version = "*", features = ["derive"] }
thiserror = "*"
