[package]
name = "codex_workbench"
version = "0.1.0"
edition = "2021"
publish = false

[dependencies]
anyhow = "1"
axum = { version = "0.8", features = ["ws"] }
chrono = "0.4"
clap = { version = "4", features = ["derive"] }
crossterm = "0.28"
dunce = "1"
libc = "0.2"
opentelemetry = { version = "0.31", features = ["trace"] }
ratatui = "0.29"
serde = { version = "1", features = ["derive"] }
serde_json = "1"
shlex = "1"
textwrap = "0.16"
thiserror = "2"
tokio = { version = "1", features = ["fs", "io-util", "macros", "net", "rt", "rt-multi-thread", "sync", "time"] }
tracing = "0.1"
unicode-width = "0.2"
url = "2"
uuid = { version = "1", features = ["v4"] }
webbrowser = "1"
which = "8"

[dev-dependencies]
tempfile = "3"
