[package]
name = "colorls"
version = "0.1.0"
edition = "2021"
publish = false

[dependencies]
anyhow = "1"
chrono = "0.4"
clap = { version = "4", features = ["derive"] }
clap-color-help = "*"
clap-version-flag = "*"
colored = "2"
dirs = "5"
serde = { version = "1", features = ["derive"] }
serde_yaml = "0.9"
terminal_size = "0.3"
unicode-width = "0.1"
users = "0.11"
