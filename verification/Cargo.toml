[package]
name = "loginus"
version = "0.1.0"
edition = "2021"
publish = false

[dependencies]
clap = { version = "4", features = ["derive"] }
futures = "0.3"
rand = "0.8"
sha2 = "0.10"
thiserror = "1"
