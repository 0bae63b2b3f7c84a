[package]
name = "md2pdf"
version = "0.1.0"
edition = "2021"
publish = false

[dependencies]
base64 = "=0.23.1"
clap = { version = "=4.6.7", features = ["derive"] }
headless_chrome = "=0.9.0"
pulldown-cmark = "=0.13.4"
thiserror = "=2.0.21"
tokio = { version = "=1.53.2", features = ["macros", "rt-multi-thread"] }
