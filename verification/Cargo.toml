[package]
name = "dcm_finder"
version = "0.1.0"
edition = "2021"
publish = false

[dependencies]
dicom = "=0.10.0"
indicatif = { version = "=0.18.6", features = ["rayon"] }
rayon = "=1.12.0"
serde = { version = "=1.0.229", features = ["derive"] }
serde_json = "=1.0.154"
structopt = "=0.3.26"
walkdir = "=2.5.0"
