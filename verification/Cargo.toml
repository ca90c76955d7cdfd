[package]
name = "semantit"
version = "0.1.0"
edition = "2021"
publish = false

[dependencies]
blake3 = "1"
strsim = "0.11"
similar = "2"
serde = { version = "1", features = ["derive"] }
serde_json = "1"
clap = { version = "4", features = ["derive"] }
thiserror = "2"
swc_common = "*"
swc_ecma_ast = "*"
swc_ecma_codegen = "*"
swc_ecma_parser = "*"
swc_ecma_visit = "*"
