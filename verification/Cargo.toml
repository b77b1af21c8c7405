[package]
name = "herdr-agent-diff"
version = "0.1.0"
edition = "2021"
publish = false

[dependencies]
crossterm = "0.29"
ignore = "0.4"
notify = "8"
ratatui = "0.30"
rustix = { version = "1", features = ["fs"] }
serde = { version = "1", features = ["derive"] }
serde_json = "1"
sha2 = "0.10"
similar = "2"
syntect = { version = "5", default-features = false, features = ["default-fancy"] }
thiserror = "2"
unicode-width = "0.2"

[dev-dependencies]
tempfile = "3"
