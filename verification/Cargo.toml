[package]
name = "bytebeat"
version = "0.1.0"
edition = "2021"
publish = false

[dependencies]
arc-swap = "1"
clap = { version = "4", features = ["derive"] }
color-eyre = "0.6"
crossterm = "*"
derive-new = "*"
libspa-sys = "*"
pipewire = "*"
pipewire-sys = "*"
ratatui = "*"
rtrb = "0.3"
thiserror = "2"
tracing = "0.1"
tracing-subscriber = { version = "0.3", features = ["env-filter"] }
tui-logger = { version = "*", features = ["tracing-support"] }
windows = { version = "*", features = ["Win32_Foundation", "Win32_Media_Audio", "Win32_System_Com", "Win32_System_Threading", "Win32_Security"] }
