[package]
name = "python_proto_importer"
version = "0.1.0"
edition = "2021"
publish = false

[dependencies]
anyhow = "*"
clap = { version = "*", features = ["derive"] }
glob = "*"
prost = "*"
prost-reflect = "*"
prost-types = "*"
serde = { version = "*", features = ["derive"] }
tempfile = "*"
toml = "*"
tracing = "*"
tracing-subscriber = { version = "*", features = ["env-filter"] }
walkdir = "*"
which = "*"
