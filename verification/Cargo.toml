[package]
name = "group_buy"
version = "0.1.0"
edition = "2021"
publish = false

[dependencies]
base64 = "0.13"
secret-toolkit = { version = "*", default-features = false, features = ["crypto"] }
