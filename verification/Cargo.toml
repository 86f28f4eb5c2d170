[package]
name = "clapboard"
version = "0.1.0"
edition = "2021"
publish = false

[dependencies]
anstyle = "1"
clap = { version = "4", features = ["derive", "cargo"] }
config = { version = "*", default-features = false }
indexmap = "2"
serde = { version = "1", features = ["derive"] }
thiserror = "*"
tokio = { version = "1", features = ["macros", "rt-multi-thread"] }
toml = "*"
wayland-clipboard-listener = "*"
wl-clipboard-rs = "*"
xdg = "*"
