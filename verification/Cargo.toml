[package]
name = "polysynth"
version = "0.1.0"
edition = "2021"
publish = false

[dependencies]
clap = { version = "=4.6.7", features = ["derive"] }
cpal = "=0.15.3"
egui = { version = "0.31", default-features = false }
egui_plot = { version = "0.31", default-features = false }
midir = "=0.10.4"
tokio = { version = "=1.54.1", features = ["rt-multi-thread", "macros", "time"] }
tracing = "=0.1.44"
tracing-subscriber = "=0.3.23"
