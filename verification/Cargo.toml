[package]
name = "rtu_fleet"
version = "0.1.0"
edition = "2021"
publish = false

[dependencies]
brewdrivers = "*"
reqwest = { version = "0.11", default-features = false, features = ["blocking"] }
serde = { version = "1", features = ["derive"] }
serde_json = "1"
tokio = { version = "1", features = ["macros", "rt-multi-thread"] }
warp = { version = "0.3", default-features = false }
