[package]
name = "dcr"
version = "0.1.0"
edition = "2021"

[dependencies]
clap = { version = "4", features = ["derive"] }
crossterm = "0.28"
dicom = { version = "0.8", default-features = false }
ratatui = "0.29"
similar = "2"
