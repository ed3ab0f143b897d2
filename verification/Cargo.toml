[package]
name = "dirserve"
version = "0.1.0"
edition = "2021"
publish = false

[dependencies]
clap = { version = "4", features = ["derive"] }
indoc = "2"
poem = { version = "*", features = ["static-files"] }
thiserror = "*"
tokio = { version = "1", features = ["macros", "process", "rt-multi-thread"] }
