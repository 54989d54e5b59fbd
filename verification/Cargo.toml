[package]
name = "filament_mat_lsp"
version = "0.3.0"
edition = "2021"
publish = false

[dependencies]
lsp-server = "0.7"
lsp-types = "0.97"
serde = { version = "1", features = ["derive"] }
serde_json = "1"
crossbeam-channel = "0.5"
regex = "1"
