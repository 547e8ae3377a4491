[package]
name = "sheet_frames"
version = "0.1.0"
edition = "2021"
publish = false

[dependencies]
calamine = { version = "*", features = ["dates"] }
