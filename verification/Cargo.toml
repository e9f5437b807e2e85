[package]
name = "lune_std_roblox"
version = "0.1.0"
edition = "2021"
publish = false

[dependencies]
lune-roblox = "=0.2.4"
lune-utils = "=0.2.4"
mlua = { version = "=0.10.5", features = ["luau"] }
mlua-luau-scheduler = "=0.1.4"
rbx_cookie = { version = "=0.1.5", default-features = false }
roblox_install = "=1.2.0"
