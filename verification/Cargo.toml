[package]
name = "v_fixtures"
version = "0.1.0"
edition = "2021"
publish = false

[dependencies]
regex = "*"
tempfile = "*"
walkdir = "*"
nix = { version = "*", features = ["fs"] }
derive-new = "*"
clap = { version = "*", features = ["derive"] }
v_utils = "*"
