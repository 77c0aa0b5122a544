[package]
name = "basalt"
version = "0.1.0"
edition = "2021"
publish = false

[dependencies]
mlua = { version = "0.10", features = ["lua54", "vendored"] }
rusqlite = { version = "0.32", features = ["bundled"] }
