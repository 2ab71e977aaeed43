[package]
name = "litematic_editor"
version = "0.1.0"
edition = "2021"
publish = false

[dependencies]
quartz_nbt = { version = "0.2", default-features = false }
thiserror = "1"
