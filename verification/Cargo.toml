[package]
name = "dbus_codegen"
version = "0.1.0"
edition = "2021"
publish = false

[dependencies]
dbus = { version = "0.9", features = ["vendored"] }
xml-rs = "0.8"
