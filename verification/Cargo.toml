[package]
name = "backdrop"
version = "0.1.0"
edition = "2021"
publish = false

[dependencies]
rand = { version = "=0.9.5", features = ["small_rng"] }
dbus = { version = "=0.9.12", features = ["vendored"] }
getopts = "=0.2.24"
