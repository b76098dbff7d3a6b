[package]
name = "chat_relay"
version = "0.1.0"
edition = "2021"
publish = false

[dependencies]
actix = "=0.13.5"
actix-rt = "=2.15.0"
actix-web = { version = "=4.15.0", default-features = false, features = ["ws"] }
actix-web-actors = "=4.3.1"
env_logger = "=0.11.11"
