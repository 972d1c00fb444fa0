[package]
name = "pinterest_parser"
version = "0.7.0"
edition = "2021"
publish = false

[dependencies]
clap = { version = "4", features = ["derive"] }
tokio = { version = "1", features = ["macros", "rt-multi-thread", "time", "fs", "sync"] }
reqwest = { version = "*", default-features = false, features = ["rustls-tls"] }
thirtyfour = "*"
