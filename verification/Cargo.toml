[package]
name = "vigil_tui"
version = "0.1.0"
edition = "2021"
publish = false

[dependencies]
anyhow = "1"
chrono = "0.4"
crossterm = "0.28"
dirs = "6"
open = "5"
ratatui = "0.29"
reqwest = { version = "0.12", default-features = false, features = ["json", "rustls-tls"] }
serde = { version = "1", features = ["derive"] }
sysinfo = "0.33"
tokio = { version = "1", features = ["rt-multi-thread", "macros", "time"] }
toml = "0.8"
