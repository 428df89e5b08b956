[package]
name = "snapshot-editor"
version = "0.1.0"
edition = "2021"
publish = false

[dependencies]
clap = { version = "4", features = ["derive"] }
displaydoc = "0.2"
thiserror = "1"
