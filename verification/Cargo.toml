[package]
name = "rmbujo"
version = "0.1.0"
edition = "2021"
publish = false

[dependencies]
chrono = "0.4"
chrono-tz = "0.10"
ical = "0.11"
rrule = "0.14"
anyhow = "1"
clap = { version = "4", features = ["derive"] }
serde = { version = "1", features = ["derive"] }
toml = "0.8"
dialoguer = "0.11"
ureq = "2"
iana-time-zone = "0.1"
typst = "*"
typst-pdf = "*"
typst-assets = { version = "*", features = ["fonts"] }
comemo = "*"
