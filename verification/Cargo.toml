[package]
name = "myrient_bulk"
version = "0.1.0"
edition = "2021"
publish = false

[dependencies]
clap = { version = "4", features = ["derive"] }
colored = "2"
ferris-says = "0.3"
indicatif = "0.17"
reqwest = { version = "0.12", features = ["blocking"] }
retry = "2"
roxmltree = "0.20"
select = "0.6"
