[package]
name = "wcov"
version = "0.1.0"
edition = "2021"
publish = false

[dependencies]
wasmparser = "*"
wast = "*"
wasmprinter = "*"
gimli = "*"
clap = { version = "*", features = ["derive"] }
serde = { version = "*", features = ["derive"] }
serde_json = "*"
colored = "*"
