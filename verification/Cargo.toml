[package]
name = "photo_archiver"
version = "0.1.0"
edition = "2021"
publish = false

[dependencies]
chrono = "0.4"
fs_extra = "1"
walkdir = "2"
