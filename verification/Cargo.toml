[package]
name = "manga_tui_core"
version = "0.1.0"
edition = "2021"
publish = false

[dependencies]
bytes = "1"
clap = { version = "4", features = ["derive", "cargo"] }
color-eyre = { version = "0.6", default-features = false }
crossterm = "0.28"
directories = "6"
log = "0.4"
pretty_env_logger = "0.5"
rars = "*"
ratatui = "0.29"
ratatui-image = { version = "8", default-features = false, features = ["crossterm"] }
serde = { version = "1", features = ["derive"] }
strum = { version = "0.27", features = ["derive"] }
throbber-widgets-tui = "0.8"
tokio = { version = "1", features = ["macros", "rt-multi-thread", "sync", "time"] }
tui-input = "0.11"
url = "2.5"
zip = { version = "*", default-features = false, features = ["deflate"] }
