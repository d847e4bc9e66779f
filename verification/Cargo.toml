[package]
name = "chatbot"
version = "0.1.0"
edition = "2021"
publish = false

[dependencies]
cursive = "=0.11.2"
serenity = { version = "=0.6.4", default-features = false, features = ["default_native_tls"] }
