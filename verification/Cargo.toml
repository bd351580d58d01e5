[package]
name = "json_shape"
version = "0.1.0"
edition = "2021"
publish = false

[dependencies]
serde = { version = "*", features = ["derive"] }
serde_json = "*"
codegen = "*"
convert_case = "*"
checksum = "*"
codespan-reporting = "*"
