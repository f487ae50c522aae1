[package]
name = "liters"
version = "0.1.0"
edition = "2021"
publish = false

[dependencies]
rand = "0.9"
chrono = "0.4"
object_store = { version = "0.12", features = ["aws"] }
rusqlite = { version = "0.37", features = ["bundled"] }
libc = "0.2"
tokio = { version = "1", features = ["rt", "net", "time"] }
futures = "0.3"
thiserror = "2"
uniffi = "0.29"
