[package]
name = "embedded_toolbox"
version = "1.0.0"
edition = "2021"
publish = false

[dependencies]
crossbeam-channel = "0.5"
parking_lot = "0.12"
rusqlite = { version = "*", features = ["bundled"] }
serde = { version = "1", features = ["derive"] }
serde_json = "1"
serialport = { version = "4", default-features = false }
tauri = { version = "2", default-features = false }
thiserror = "2"
uuid = { version = "1", features = ["v7", "serde"] }
