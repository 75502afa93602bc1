[package]
name = "vantage"
version = "0.1.0"
edition = "2021"
publish = false

[dependencies]
chrono = { version = "0.4", features = ["serde"] }
dirs = "5"
rustyline = "14"
serde = { version = "1", features = ["derive"] }
serde_json = "1"
shell-words = "1"
sysinfo = "0.33"
walkdir = "2"
