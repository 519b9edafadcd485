[package]
name = "slicer_toolbox"
version = "0.1.0"
edition = "2021"
publish = false

[dependencies]
anyhow = "*"
csv = "*"
icu_collator = "*"
serde_json = "*"
walkdir = "*"

[dev-dependencies]
merge-whitespace-utils = "*"
