[package]
name = "o_lang"
version = "0.1.0"
edition = "2021"
publish = false

[dependencies]
anyhow = "1"
clap = { version = "4", features = ["derive"] }
getrandom = "0.4"
hex = "0.4"
ignore = "0.4"
libc = "0.2"
serde = { version = "1", features = ["derive"] }
serde_json = { version = "1", features = ["preserve_order"] }
sha2 = "0.10"
signal-hook = "*"
thiserror = "2"
toml = "0.8"
which = "6"
