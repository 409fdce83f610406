[package]
name = "obslog"
version = "0.1.0"
edition = "2021"
publish = false

[dependencies]
urlencoding = "2"
clap = { version = "4", features = ["derive"] }
preferences = "1"
reqwest = { version = "0.11", default-features = false }
tokio = { version = "1", features = ["macros", "rt-multi-thread"] }
