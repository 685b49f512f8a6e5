[package]
name = "scan_pool"
version = "0.1.0"
edition = "2021"
publish = false

[dependencies]
actix = "=0.13.5"
actix-rt = "=2.15.0"
futures = "=0.3.34"
getopts = "=0.2.24"
walkdir = "=2.5.0"
yara = { version = "=0.32.0", default-features = false, features = ["bundled-4_5_5"] }
