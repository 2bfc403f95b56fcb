[package]
name = "nu_plugin_junit"
version = "0.3.0"
edition = "2021"
publish = false

[dependencies]
roxmltree = "=0.21.2"
rust_xlsxwriter = "=0.102.0"
nu-plugin = { version = "=0.114.1", default-features = false }
nu-protocol = "=0.114.1"
