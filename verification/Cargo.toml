[package]
name = "git_worktree_copse"
version = "0.1.4"
edition = "2021"
publish = false

[dependencies]
anyhow = "1"
clap = { version = "4", features = ["derive"] }
console = "*"
dialoguer = { version = "*", features = ["fuzzy-select"] }
