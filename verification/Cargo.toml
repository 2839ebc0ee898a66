[package]
name = "rust_weekly"
version = "0.1.0"
edition = "2021"
publish = false

[dependencies]
async-trait = "*"
clap = "*"
reqwest = { version = "*", default-features = false, features = ["json"] }
serde = { version = "*", features = ["derive"] }
serde_json = "*"
termimad = "*"
tokio = { version = "*", features = ["macros", "rt-multi-thread"] }
