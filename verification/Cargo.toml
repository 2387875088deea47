[package]
name = "tracehell"
version = "0.1.0"
edition = "2021"
publish = false

[dependencies]
serde = { version = "1", features = ["derive"] }
toml = "0.8"
syn = { version = "2", features = ["full", "visit-mut"] }
quote = "1"
proc-macro2 = "1"
prettyplease = "0.2"
walkdir = "2"
cargo_metadata = "*"

[dev-dependencies]
tempfile = "3"
