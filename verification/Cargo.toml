[package]
name = "substrate"
version = "0.1.0"
edition = "2021"
publish = false

[dependencies]
serde = { version = "1", features = ["derive"] }
serde_json = "1"
clap = { version = "4", features = ["derive"] }
thiserror = "2"
time = { version = "0.3", features = ["formatting", "macros", "local-offset"] }
postcard = { version = "1", features = ["alloc"] }
