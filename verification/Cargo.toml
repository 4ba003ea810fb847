[package]
name = "lua_member_infer"
version = "0.1.0"
edition = "2021"
publish = false

[dependencies]
smol_str = "0.3"
rowan = "0.16"
lsp-types = "0.97"
serde = { version = "1", features = ["derive"] }
tokio-util = "0.7"
