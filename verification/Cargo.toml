[package]
name = "markdownfs"
version = "0.1.0"
edition = "2021"
publish = false

[dependencies]
sha2 = "=0.10.9"
chrono = { version = "=0.4.45", default-features = false, features = ["alloc", "std"] }
regex = "=1.13.1"
serde = { version = "=1.0.229", features = ["derive"] }
bincode = "=1.3.3"
rand = "=0.8.8"
uuid = { version = "=1.29.0", features = ["v4", "serde"] }
rustyline = "14"
