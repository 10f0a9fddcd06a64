[package]
name = "stackmach"
version = "0.1.0"
edition = "2021"
publish = false

[dependencies]
slog = "=2.8.2"
slog-json = "=2.6.1"
slog-term = "=2.9.2"
isatty = "=0.1.9"
