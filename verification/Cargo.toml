[package]
name = "rediff"
version = "0.1.0"
edition = "2021"
publish = false

[dependencies]
imara-diff = "=0.2.0"
unicode-width = "=0.2.3"
two-face = "=0.5.1"
syntect = "=5.3.0"
toml = "=0.8.23"
toml_edit = "=0.22.27"
serde = { version = "=1.0.229", features = ["derive"] }
anyhow = "=1.0.104"
gix = { version = "=0.90.0", default-features = false, features = ["blame", "revision", "sha1"] }
ratatui = { version = "=0.30.2", default-features = false }
tree-sitter-highlight = "=0.25.10"
tree-sitter-rust = "=0.24.2"
tree-sitter-javascript = "=0.23.1"
tree-sitter-typescript = "=0.23.2"
clap = { version = "4", features = ["derive"] }

[dev-dependencies]
tempfile = "=3.27.0"
