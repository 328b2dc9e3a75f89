[package]
name = "rackviz"
version = "0.1.0"
edition = "2021"
publish = false

[dependencies]
chrono = "0.4"
rusqlite = { version = "*", features = ["bundled"] }
calamine = "*"
rust_xlsxwriter = "*"
askama = "*"
serde = { version = "1", features = ["derive"] }
serde_json = "1"
log = "0.4"
flexi_logger = "*"
