[package]
name = "roam_export"
version = "0.1.0"
edition = "2021"
publish = false

[dependencies]
slug = "0.1"
uuid = "1"
orgize = "=0.10.0-alpha.10"
walkdir = "2"
argh = "0.1"
