[package]
name = "ekg"
version = "0.1.0"
edition = "2021"
publish = false

[dependencies]
clap = { version = "4", features = ["derive"] }
crossterm = "*"
surge-ping = "0.8"
tokio = { version = "1", features = ["rt", "macros", "time", "sync", "process", "signal"] }
