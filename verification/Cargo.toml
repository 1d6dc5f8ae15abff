[package]
name = "ifstat_rs"
version = "0.1.0"
edition = "2021"
publish = false

[dependencies]
clap = { version = "*", features = ["derive"] }
winapi = { version = "*", features = ["iphlpapi", "ifmib"] }
