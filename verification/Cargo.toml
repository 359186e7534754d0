[package]
name = "resumable_transfer"
version = "0.1.0"
edition = "2021"
publish = false

[dependencies]
tar = { version = "0.4", default-features = false }
flate2 = "1"
clap = { version = "4", features = ["derive"] }
tokio = { version = "1", features = ["macros", "rt-multi-thread", "fs", "io-std", "io-util"] }
actix-web = { version = "4", default-features = false }
reqwest = { version = "0.12", default-features = false, features = ["stream"] }
futures-util = "0.3"
