[package]
name = "harvest_tools"
version = "0.1.0"
edition = "2021"
publish = false

[dependencies]
cargo_metadata = "*"
chrono = { version = "0.4", features = ["serde"] }
clang = { version = "2", features = ["clang_10_0", "runtime"] }
clang-ast = "0.1"
fs_extra = "1"
prettyplease = "0.2"
proc-macro2 = { version = "1", features = ["span-locations"] }
rayon = "1"
serde = { version = "1", features = ["derive"] }
serde_json = "1"
syn = { version = "2", features = ["full", "extra-traits"] }
tempfile = "3"
toml_edit = "*"
tracing = "0.1"
wait-timeout = "0.2"
walkdir = "2"
