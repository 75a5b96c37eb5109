[package]
name = "ergogen"
version = "0.1.0"
edition = "2021"
publish = false

[dependencies]
regex = "=1.13.1"
indexmap = { version = "=2.14.2", features = ["serde"] }
serde = { version = "=1.0.229", features = ["derive"] }
serde_json = { version = "=1.0.154", features = ["preserve_order"] }
serde_yaml = "=0.9.34"
meval = "=0.2.0"
ryu = "=1.0.23"
thiserror = "=2.0.21"
anyhow = "=1.0.104"
clap = { version = "=4.6.7", features = ["derive"] }
cavalier_contours = "=0.9.0"
image = { version = "=0.25.10", default-features = false, features = ["png"] }
tiny-skia = { version = "=0.12.0", default-features = false, features = ["std"] }
