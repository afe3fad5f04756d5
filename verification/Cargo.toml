[package]
name = "pdml"
version = "0.1.0"
edition = "2021"
publish = false

[dependencies]
async-trait = "*"
reqwest = { version = "*", default-features = false }
soup = "*"
tokio = { version = "*", features = ["macros", "rt-multi-thread"] }
