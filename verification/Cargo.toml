[package]
name = "workspace_switcher"
version = "0.1.0"
edition = "2021"

[dependencies]
i3ipc = "*"
