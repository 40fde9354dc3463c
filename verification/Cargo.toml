[package]
name = "plz"
version = "0.1.0"
edition = "2021"
publish = false

[dependencies]
debian-control = "*"
lazy-regex = "*"
nix = { version = "0.30", features = ["user"] }
reqwest = { version = "0.12", default-features = false }
serde = { version = "1", features = ["derive"] }
serde_json = "1"
sqlx = { version = "0.8", default-features = false, features = ["sqlite", "runtime-tokio"] }
tokio = { version = "1", features = ["macros", "rt-multi-thread", "fs", "process", "io-util", "time"] }
