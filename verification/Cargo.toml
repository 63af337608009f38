[package]
name = "desktop_postflop"
version = "0.1.0"
edition = "2021"
publish = false

[dependencies]
rayon = "1"
serde = { version = "1", features = ["derive"] }
sysinfo = "0.29"
