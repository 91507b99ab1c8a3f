[package]
name = "cacao_engine"
version = "0.1.0"
edition = "2021"
publish = false

[dependencies]
sha2 = "*"
aes-gcm = "*"
rand = "*"
uuid = { version = "*", features = ["v4"] }
mlua = { version = "*", features = ["lua54", "vendored"] }
