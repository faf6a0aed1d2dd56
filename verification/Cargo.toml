[package]
name = "log_archiver"
version = "0.1.0"
edition = "2021"
publish = false

[dependencies]
argparse = "0.2"
chrono = { version = "0.4", default-features = false, features = ["std"] }
colored = "2"
zip = { version = "0.6", default-features = false }
