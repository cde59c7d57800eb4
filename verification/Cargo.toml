[package]
name = "mod_manager"
version = "0.1.0"
edition = "2021"
publish = false

[dependencies]
directories = "*"
serde = { version = "*", features = ["derive"] }
serde_json = "*"
flate2 = "*"
thiserror = "*"
tokio = { version = "*", features = ["rt", "fs"] }
pin-project = "*"
