[package]
name = "rtw"
version = "0.1.0"
edition = "2021"
publish = false

[dependencies]
chrono = "0.4"
chrono-humanize = "*"
htp = "*"
ansi_term = "0.12"
term_size = "0.3"
clap = "2"
config = "*"
dirs-next = "2"
serde = { version = "1", features = ["derive"] }
serde_json = "1"
anyhow = "1"
icalendar = "*"
thiserror = "1"
