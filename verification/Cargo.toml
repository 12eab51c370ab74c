[package]
name = "audiobook_pipeline"
version = "0.1.0"
edition = "2021"
publish = false

[dependencies]
sha2 = "0.10"
html2text = "0.6"
epub = "2.0"
rayon = "1.8"
num_cpus = "1"
tempfile = "3.8"
