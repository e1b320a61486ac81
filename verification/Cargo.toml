[package]
name = "yaml_cv"
version = "0.1.0"
edition = "2021"
publish = false

[dependencies]
anyhow = "=1.0.104"
clap = { version = "=4.6.7", features = ["derive"] }
printpdf = { version = "=0.6.0", features = ["embedded_images"] }
serde = { version = "=1.0.229", features = ["derive"] }
serde_yaml = "=0.9.34"
