[package]
name = "white_space"
version = "0.1.0"
edition = "2021"
publish = false

[dependencies]
sha1 = "0.10"
chrono = "0.4"
serde = { version = "1", features = ["derive"] }
rusqlite = { version = "*", features = ["bundled", "chrono"] }
r2d2 = "*"
r2d2_sqlite = "*"
walkdir = "2"
dirs = "*"
notify = "*"
