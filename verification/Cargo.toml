[package]
name = "msgfmt"
version = "0.1.0"
edition = "2021"
publish = false

[dependencies]
icu = { version = "1.5", features = ["experimental"] }
fixed_decimal = "0.5"
writeable = "0.5"
