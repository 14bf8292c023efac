[package]
name = "jiralog"
version = "0.1.0"
edition = "2021"
publish = false

[dependencies]
chrono = "*"
clap = { version = "*", features = ["derive"] }
dirs = "*"
java-properties = "*"
nanoid = "*"
reqwest = { version = "*", default-features = false, features = ["blocking"] }
