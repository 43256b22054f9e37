[package]
name = "xhtp"
version = "0.1.0"
edition = "2021"
publish = false

[dependencies]
dirs = "=7.0.0"
clap = { version = "=4.6.7", features = ["derive"] }
serde = { version = "=1.0.229", features = ["derive"] }
serde_json = "=1.0.151"
reqwest = { version = "=0.13.5", default-features = false, features = ["json", "form"] }
tokio = { version = "=1.53.2", features = ["macros", "rt-multi-thread"] }
