[package]
name = "fastgit"
version = "0.1.0"
edition = "2021"
publish = false

[dependencies]
crossterm = "*"
git2 = { version = "*", default-features = false }
ratatui = "*"
tokio = { version = "*", features = ["macros", "rt-multi-thread"] }
