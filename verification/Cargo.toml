[package]
name = "root_world"
version = "0.1.0"
edition = "2021"
publish = false

[dependencies]
clap = { version = "=3.2.25", features = ["derive"] }
geng = { version = "=0.8.0", default-features = false }
ugli = "=0.8.0"
