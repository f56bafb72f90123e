[package]
name = "molecule_schema_compacter"
version = "0.1.0"
edition = "2021"
publish = false

[dependencies]
clap = { version = "=4.6.7", features = ["cargo"] }
molecule = "=0.9.2"
molecule-codegen = { version = "=0.9.2", features = ["compiler-plugin"] }
serde_json = "=1.0.154"
