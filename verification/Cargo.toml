[package]
name = "rust_xyz_chem"
version = "0.1.0"
edition = "2021"

[dependencies]
thiserror = "1"
