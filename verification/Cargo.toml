[package]
name = "tnesh_scaffolding"
version = "0.1.0"
edition = "2021"
publish = false

[dependencies]
anyhow = "=1.0.104"
build-fs-tree = "=0.8.1"
clap = { version = "=4.6.7", features = ["derive"] }
colored = "=3.1.1"
dialoguer = "=0.12.0"
git2 = { version = "=0.21.0", default-features = false }
handlebars = "=6.4.4"
ignore = "=0.4.34"
path-clean = "=1.0.1"
regex = "=1.13.1"
serde = { version = "=1.0.229", features = ["derive"] }
serde_json = "=1.0.154"
serde_yaml = "=0.9.34"
thiserror = "=2.0.21"
