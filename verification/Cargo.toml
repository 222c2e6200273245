[package]
name = "gtfs_editor"
version = "0.1.0"
edition = "2021"
publish = false

[dependencies]
im = "15"
druid = { version = "0.8", features = ["im"] }
gtfs-structures = { version = "*", default-features = false }
