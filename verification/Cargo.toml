[package]
name = "struct_grid"
version = "0.1.0"
edition = "2021"
publish = false

[dependencies]
egui = "0.31"
serde = { version = "1", features = ["derive"] }
