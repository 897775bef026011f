[package]
name = "note_graph"
version = "0.1.0"
edition = "2021"
publish = false

[dependencies]
sprs = "*"
nalgebra = "*"
serde = { version = "*", features = ["derive"] }
serde_json = "*"
